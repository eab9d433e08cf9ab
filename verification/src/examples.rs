//! Built-in example circuits.
use vstd::prelude::*;

verus! {

/// A named example circuit and its text dump.
#[derive(Clone, Copy, Debug)]
pub struct Example {
    pub id: &'static str,
    pub name: &'static str,
    pub dump: &'static str,
}

/// The built-in examples, in menu order.
pub open spec fn catalog() -> Seq<Example> {
    seq![
        Example {
            id: "divider",
            name: "Voltage divider",
            dump: "\
v 0 100 0 0 0 0 40 10 0 0 0.5
r 0 0 100 0 0 1000
r 100 0 100 100 0 1000
w 100 100 0 100 0
",
        },
        Example {
            id: "rc",
            name: "RC step",
            dump: "\
$ 0 0.000001
v 0 100 0 0 0 0 40 1 0 0 0.5
r 0 0 100 0 0 1000
c 100 0 100 100 0 0.000001 0 0 0
w 100 100 0 100 0
",
        },
        Example {
            id: "lc",
            name: "LC ring (trap)",
            dump: "\
$ 0 0.0000001
g 0 0 0 16 0
c 0 0 100 0 0 0.000001 1 1 0
l 100 0 0 0 0 0.001 0 0
",
        },
        Example {
            id: "diode",
            name: "Diode + resistor",
            dump: "\
v 0 100 0 0 0 0 40 5 0 0 0.5
r 0 0 100 0 0 1000
d 100 0 100 100 0
w 100 100 0 100 0
",
        },
        Example {
            id: "current",
            name: "Current source",
            dump: "\
i 0 100 0 0 0 0.002
r 0 0 0 100 0 2500
g 0 100 0 116 0
",
        },
        Example {
            id: "islands",
            name: "Two islands",
            dump: "\
v 0 100 0 0 0 0 40 10 0 0 0.5
r 0 0 0 100 0 1000
v 200 100 200 0 0 0 40 3 0 0 0.5
r 200 0 200 100 0 1000
g 0 100 0 116 0
g 200 100 200 116 0
",
        },
    ]
}

/// The built-in examples, in menu order.
pub fn examples() -> (r: Vec<Example>)
    ensures
        r@ == catalog(),
{
    let v = vec![
        Example {
            id: "divider",
            name: "Voltage divider",
            dump: "\
v 0 100 0 0 0 0 40 10 0 0 0.5
r 0 0 100 0 0 1000
r 100 0 100 100 0 1000
w 100 100 0 100 0
",
        },
        Example {
            id: "rc",
            name: "RC step",
            dump: "\
$ 0 0.000001
v 0 100 0 0 0 0 40 1 0 0 0.5
r 0 0 100 0 0 1000
c 100 0 100 100 0 0.000001 0 0 0
w 100 100 0 100 0
",
        },
        Example {
            id: "lc",
            name: "LC ring (trap)",
            dump: "\
$ 0 0.0000001
g 0 0 0 16 0
c 0 0 100 0 0 0.000001 1 1 0
l 100 0 0 0 0 0.001 0 0
",
        },
        Example {
            id: "diode",
            name: "Diode + resistor",
            dump: "\
v 0 100 0 0 0 0 40 5 0 0 0.5
r 0 0 100 0 0 1000
d 100 0 100 100 0
w 100 100 0 100 0
",
        },
        Example {
            id: "current",
            name: "Current source",
            dump: "\
i 0 100 0 0 0 0.002
r 0 0 0 100 0 2500
g 0 100 0 116 0
",
        },
        Example {
            id: "islands",
            name: "Two islands",
            dump: "\
v 0 100 0 0 0 0 40 10 0 0 0.5
r 0 0 0 100 0 1000
v 200 100 200 0 0 0 40 3 0 0 0.5
r 200 0 200 100 0 1000
g 0 100 0 116 0
g 200 100 200 116 0
",
        },
    ];
    proof {
        assert(v@ =~= catalog());
    }
    v
}

/// `a` and `b` hold the same characters.
fn same_text(a: &str, b: &str) -> (r: bool)
    ensures
        r == (a@ == b@),
{
    let x = crate::text::chars_of(a);
    let y = crate::text::chars_of(b);
    if x.len() != y.len() {
        return false;
    }
    let mut i: usize = 0;
    while i < x.len()
        invariant
            x@ == a@,
            y@ == b@,
            x@.len() == y@.len(),
            i <= x@.len(),
            forall|j: int| 0 <= j < i ==> x@[j] == y@[j],
        decreases x@.len() - i,
    {
        if x[i] != y[i] {
            return false;
        }
        i = i + 1;
    }
    proof {
        assert(x@ =~= y@);
    }
    true
}

/// The example with identifier `id`, if there is one.
pub fn by_id(id: &str) -> (r: Option<Example>)
    ensures
        r matches Some(e) ==> catalog().contains(e) && e.id@ == id@,
        r is None ==> forall|i: int| 0 <= i < catalog().len() ==> (#[trigger] catalog()[i]).id@ != id@,
{
    let all = examples();
    let mut i: usize = 0;
    while i < all.len()
        invariant
            all@ == catalog(),
            i <= all@.len(),
            forall|j: int| 0 <= j < i ==> (#[trigger] catalog()[j]).id@ != id@,
        decreases all@.len() - i,
    {
        let e = all[i];
        if same_text(e.id, id) {
            proof {
                assert(catalog()[i as int] == e);
            }
            return Some(e);
        }
        i = i + 1;
    }
    None
}

} // verus!
