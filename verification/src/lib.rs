//! Topology, parsing and digital-logic core of a schematic circuit simulator.
use vstd::prelude::*;

pub mod chip;
pub mod dump;
pub mod error;
pub mod examples;
pub mod example_reads;
pub mod geom;
pub mod segments;
pub mod kinds;
pub mod logic;
pub mod union_find;
pub mod netlist;
pub mod numbering;
pub mod topology;
pub mod text;
pub mod analysis;

verus! {

} // verus!
