//! Failures of analysis, simulation and parsing.
use vstd::prelude::*;
use vstd::string::StringExecFns;

verus! {

/// Simulation or parse failure.
#[derive(Debug, Clone, PartialEq, Eq)]
pub enum SimError {
    SingularMatrix,
    ConvergenceFailed,
    EmptyCircuit,
    Parse(String),
    Invalid(String),
}

/// Text of an error, as shown to the user.
pub open spec fn error_text(e: SimError) -> Seq<char> {
    match e {
        SimError::SingularMatrix => "Singular matrix!"@,
        SimError::ConvergenceFailed => "Convergence failed!"@,
        SimError::EmptyCircuit => "Empty circuit"@,
        SimError::Parse(s) => "parse error: "@ + s@,
        SimError::Invalid(s) => s@,
    }
}

impl SimError {
    /// The error as text.
    pub fn message(&self) -> (r: String)
        ensures
            r@ == error_text(*self),
    {
        match self {
            SimError::SingularMatrix => String::from_str("Singular matrix!"),
            SimError::ConvergenceFailed => String::from_str("Convergence failed!"),
            SimError::EmptyCircuit => String::from_str("Empty circuit"),
            SimError::Parse(s) => {
                let mut r = String::from_str("parse error: ");
                r.append(s.as_str());
                r
            },
            SimError::Invalid(s) => s.clone(),
        }
    }
}

} // verus!
