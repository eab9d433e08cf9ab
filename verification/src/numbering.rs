//! Numbering of circuit nodes: one node per net, in order of first use.
use vstd::prelude::*;
use crate::union_find::{Point, key_of, lemma_point_key, point_key};
use std::collections::HashMap;

verus! {

broadcast use vstd::std_specs::hash::group_hash_axioms;

/// Node numbers given to a sequence of terminal slots. A slot with key
/// `Some(r)` belongs to the net `r`; a slot with key `None` is an internal
/// terminal with a node of its own. Node 0 is the net `ground`.
pub open spec fn numbering_ok(
    keys: Seq<Option<Point>>,
    ground: Option<Point>,
    nodes: Seq<usize>,
    internal: Seq<bool>,
) -> bool {
    let count = internal.len();
    &&& nodes.len() == keys.len()
    &&& count >= 1
    &&& !internal[0]
    &&& forall|t: int| 0 <= t < keys.len() ==> (#[trigger] nodes[t]) < count
    // a net slot gets node 0 exactly when its net is the ground net
    &&& forall|t: int|
        0 <= t < keys.len() && (#[trigger] keys[t]) is Some ==> (nodes[t] == 0 <==> ground == keys[t])
    // net slots share a node exactly when they share a net
    &&& forall|t1: int, t2: int|
        0 <= t1 < keys.len() && 0 <= t2 < keys.len() && (#[trigger] keys[t1]) is Some && (
        #[trigger] keys[t2]) is Some ==> (nodes[t1] == nodes[t2] <==> keys[t1] == keys[t2])
    // an internal slot has a fresh node no other slot shares
    &&& forall|t1: int, t2: int|
        0 <= t1 < keys.len() && 0 <= t2 < keys.len() && t1 != t2 && (#[trigger] keys[t1]) is None
            ==> nodes[t1] != (#[trigger] nodes[t2])
    &&& forall|t: int| 0 <= t < keys.len() ==> internal[#[trigger] nodes[t] as int] == keys[t] is None
    &&& forall|t: int| 0 <= t < keys.len() && (#[trigger] keys[t]) is None ==> nodes[t] != 0
    // every node but 0 is used, and nodes are numbered by first use
    &&& forall|n: int| 1 <= n < count ==> #[trigger] used_before(nodes, keys.len() as int, n)
    &&& forall|t: int, n: int|
        0 <= t < keys.len() && 1 <= n < nodes[t] ==> #[trigger] used_before(nodes, t, n)
}

/// Some slot before `t` has node `n`.
pub open spec fn used_before(nodes: Seq<usize>, t: int, n: int) -> bool {
    exists|t2: int| 0 <= t2 < t && #[trigger] nodes[t2] == n
}

/// `idx` finds the entry of every net of the table by its hash key.
spec fn index_ok(table: Seq<(Point, usize)>, idx: Map<u64, usize>) -> bool {
    &&& forall|j: int|
        0 <= j < table.len() ==> idx.contains_key(point_key((#[trigger] table[j]).0)) && idx[point_key(
            table[j].0,
        )] == j
    &&& forall|k: u64| #[trigger] idx.contains_key(k) ==> (idx[k] as int) < table.len() && point_key(table[idx[k] as int].0) == k
}

proof fn lemma_index_push(table: Seq<(Point, usize)>, idx: Map<u64, usize>, r: Point, node: usize)
    requires
        index_ok(table, idx),
        table.len() <= usize::MAX,
        forall|j: int| 0 <= j < table.len() ==> (#[trigger] table[j]).0 != r,
    ensures
        index_ok(table.push((r, node)), idx.insert(point_key(r), table.len() as usize)),
{
    let t2 = table.push((r, node));
    let i2 = idx.insert(point_key(r), table.len() as usize);
    assert forall|j: int| 0 <= j < t2.len() implies i2.contains_key(point_key((#[trigger] t2[j]).0)) && i2[point_key(
        t2[j].0,
    )] == j by {
        if j < table.len() {
            assert(t2[j] == table[j]);
            lemma_point_key(table[j].0, r);
        }
    }
    assert forall|k: u64| #[trigger] i2.contains_key(k) implies (i2[k] as int) < t2.len() && point_key(t2[i2[k] as int].0) == k by {
        if k != point_key(r) {
            assert(idx.contains_key(k));
            assert(t2[idx[k] as int] == table[idx[k] as int]);
        }
    }
}

/// Node of net `r` in the table, if any.
fn table_lookup(table: &Vec<(Point, usize)>, idx: &HashMap<u64, usize>, r: Point) -> (res: Option<usize>)
    requires
        index_ok(table@, idx@),
    ensures
        res matches Some(j) ==> j < table@.len() && table@[j as int].0 == r,
        res is None ==> forall|j: int| 0 <= j < table@.len() ==> (#[trigger] table@[j]).0 != r,
{
    let k = key_of(r);
    match idx.get(&k) {
        Some(j) => {
            let j = *j;
            proof {
                lemma_point_key(table@[j as int].0, r);
            }
            Some(j)
        },
        None => {
            assert forall|j: int| 0 <= j < table@.len() implies (#[trigger] table@[j]).0 != r by {
                if table@[j].0 == r {
                    assert(idx@.contains_key(point_key(table@[j].0)));
                }
            }
            None
        },
    }
}

/// State of the numbering after the first `t` slots.
spec fn table_ok(
    keys: Seq<Option<Point>>,
    ground: Option<Point>,
    nodes: Seq<usize>,
    internal: Seq<bool>,
    table: Seq<(Point, usize)>,
    ent: Seq<int>,
    first: Seq<int>,
) -> bool {
    let t = nodes.len();
    let count = internal.len();
    &&& t <= keys.len()
    &&& count >= 1
    &&& !internal[0]
    &&& ent.len() == t
    &&& first.len() == count
    &&& forall|j: int| 0 <= j < table.len() ==> (#[trigger] table[j]).1 < count && !internal[table[j].1 as int]
    &&& forall|j1: int, j2: int|
        0 <= j1 < table.len() && 0 <= j2 < table.len() && j1 != j2 ==> (#[trigger] table[j1]).0
            != (#[trigger] table[j2]).0 && table[j1].1 != table[j2].1
    &&& forall|j: int| 0 <= j < table.len() ==> ((#[trigger] table[j]).1 == 0 <==> ground == Some(table[j].0))
    &&& (ground matches Some(g) ==> table.len() > 0 && table[0] == (g, 0usize))
    &&& forall|i: int| 0 <= i < t ==> (#[trigger] nodes[i]) < count
    &&& forall|i: int|
        0 <= i < t && (#[trigger] keys[i]) is Some ==> 0 <= ent[i] < table.len() && table[ent[i]]
            == (keys[i].unwrap(), nodes[i])
    &&& forall|i1: int, i2: int|
        0 <= i1 < t && 0 <= i2 < t && i1 != i2 && (#[trigger] keys[i1]) is None ==> nodes[i1]
            != (#[trigger] nodes[i2])
    &&& forall|i: int| 0 <= i < t ==> internal[#[trigger] nodes[i] as int] == keys[i] is None
    &&& forall|n: int| 1 <= n < count ==> 0 <= #[trigger] first[n] < t && nodes[first[n]] == n
    &&& forall|i: int| 0 <= i < t && (#[trigger] nodes[i]) >= 1 ==> first[nodes[i] as int] <= i
    &&& forall|n1: int, n2: int| 1 <= n1 < n2 < count ==> #[trigger] first[n1] < #[trigger] first[n2]
    &&& forall|j: int| 0 <= j < table.len() && (#[trigger] table[j]).1 >= 1 ==> keys[first[table[j].1 as int]] == Some(table[j].0)
}

proof fn lemma_table_final(
    keys: Seq<Option<Point>>,
    ground: Option<Point>,
    nodes: Seq<usize>,
    internal: Seq<bool>,
    table: Seq<(Point, usize)>,
    ent: Seq<int>,
    first: Seq<int>,
)
    requires
        table_ok(keys, ground, nodes, internal, table, ent, first),
        nodes.len() == keys.len(),
    ensures
        numbering_ok(keys, ground, nodes, internal),
{
    let count = internal.len();
    assert forall|t: int| 0 <= t < keys.len() && (#[trigger] keys[t]) is Some implies (nodes[t] == 0
        <==> ground == keys[t]) by {
        let j = ent[t];
        assert(table[j] == (keys[t].unwrap(), nodes[t]));
    }
    assert forall|t1: int, t2: int|
        0 <= t1 < keys.len() && 0 <= t2 < keys.len() && (#[trigger] keys[t1]) is Some && (
        #[trigger] keys[t2]) is Some implies (nodes[t1] == nodes[t2] <==> keys[t1] == keys[t2]) by {
        let j1 = ent[t1];
        let j2 = ent[t2];
        assert(table[j1] == (keys[t1].unwrap(), nodes[t1]));
        assert(table[j2] == (keys[t2].unwrap(), nodes[t2]));
        if j1 != j2 {
            assert(table[j1].0 != table[j2].0 && table[j1].1 != table[j2].1);
        }
    }
    assert forall|t: int| 0 <= t < keys.len() && (#[trigger] keys[t]) is None implies nodes[t] != 0 by {
        assert(internal[nodes[t] as int]);
    }
    assert forall|n: int| 1 <= n < count implies #[trigger] used_before(nodes, keys.len() as int, n) by {
        assert(nodes[first[n]] == n);
    }
    assert forall|t: int, n: int|
        0 <= t < keys.len() && 1 <= n < nodes[t] implies #[trigger] used_before(nodes, t, n) by {
        assert(first[n] < first[nodes[t] as int]);
        assert(nodes[first[n]] == n);
    }
}

/// Numbers the slots: node 0 is the ground net, every other net gets the
/// next free number at its first slot, and every internal slot gets a fresh
/// number. Returns the node of each slot and, per node, whether it is
/// internal.
pub fn number_slots(keys: &Vec<Option<Point>>, ground: Option<Point>) -> (r: (Vec<usize>, Vec<bool>))
    requires
        keys@.len() < usize::MAX,
    ensures
        numbering_ok(keys@, ground, r.0@, r.1@),
        r.1@.len() <= keys@.len() + 1,
{
    let mut nodes: Vec<usize> = Vec::new();
    let mut internal: Vec<bool> = Vec::new();
    internal.push(false);
    let mut table: Vec<(Point, usize)> = Vec::new();
    let mut idx: HashMap<u64, usize> = HashMap::new();
    if let Some(g) = ground {
        proof {
            assert(table.len() == table@.len());
            lemma_index_push(table@, idx@, g, 0);
        }
        idx.insert(key_of(g), 0);
        table.push((g, 0));
    }
    let ghost mut ent: Seq<int> = Seq::empty();
    let ghost mut first: Seq<int> = seq![0];
    let n = keys.len();
    let mut t: usize = 0;
    while t < n
        invariant
            n == keys@.len(),
            n < usize::MAX,
            t == nodes@.len(),
            t <= n,
            internal@.len() <= t + 1,
            table_ok(keys@, ground, nodes@, internal@, table@, ent, first),
            index_ok(table@, idx@),
        decreases n - t,
    {
        let ghost nodes0 = nodes@;
        let ghost internal0 = internal@;
        let ghost table0 = table@;
        match keys[t] {
            Some(r) => {
                match table_lookup(&table, &idx, r) {
                    Some(j) => {
                        let node = table[j].1;
                        nodes.push(node);
                        proof {
                            ent = ent.push(j as int);
                            assert forall|i: int| 0 <= i < t + 1 && (#[trigger] nodes@[i]) >= 1 implies first[nodes@[i] as int] <= i by {
                                if i == t {
                                    assert(keys@[first[node as int]] == Some(table@[j as int].0));
                                }
                            }
                            assert forall|i1: int, i2: int|
                                0 <= i1 < t + 1 && 0 <= i2 < t + 1 && i1 != i2 && (#[trigger] keys@[i1]) is None implies nodes@[i1]
                                    != (#[trigger] nodes@[i2]) by {
                                if i2 == t {
                                    assert(internal@[nodes@[i1] as int]);
                                    assert(!internal@[node as int]);
                                } else if i1 < t {
                                    assert(nodes@[i1] == nodes0[i1]);
                                }
                            }
                            assert forall|i: int|
                                0 <= i < t + 1 && (#[trigger] keys@[i]) is Some implies 0 <= ent[i] < table@.len() && table@[ent[i]]
                                    == (keys@[i].unwrap(), nodes@[i]) by {
                                if i < t {
                                    assert(nodes@[i] == nodes0[i]);
                                }
                            }
                            assert forall|i: int| 0 <= i < t + 1 implies internal@[#[trigger] nodes@[i] as int] == keys@[i] is None by {
                                if i < t {
                                    assert(nodes@[i] == nodes0[i]);
                                }
                            }
                            assert forall|nn: int| 1 <= nn < internal@.len() implies 0 <= #[trigger] first[nn] < t + 1 && nodes@[first[nn]] == nn by {
                                assert(nodes@[first[nn]] == nodes0[first[nn]]);
                            }
                        }
                    },
                    None => {
                        let node = internal.len();
                        internal.push(false);
                        proof {
                            assert(table.len() == table@.len());
                            lemma_index_push(table@, idx@, r, node);
                        }
                        idx.insert(key_of(r), table.len());
                        table.push((r, node));
                        nodes.push(node);
                        proof {
                            ent = ent.push(table0.len() as int);
                            first = first.push(t as int);
                            assert(ground != Some(r)) by {
                                if ground is Some {
                                    assert(table0[0].0 != r);
                                }
                            }
                            assert forall|j1: int, j2: int|
                                0 <= j1 < table@.len() && 0 <= j2 < table@.len() && j1 != j2 implies (#[trigger] table@[j1]).0
                                    != (#[trigger] table@[j2]).0 && table@[j1].1 != table@[j2].1 by {
                                if j1 < table0.len() && j2 < table0.len() {
                                    assert(table@[j1] == table0[j1]);
                                    assert(table@[j2] == table0[j2]);
                                } else if j1 < table0.len() {
                                    assert(table@[j1] == table0[j1]);
                                } else {
                                    assert(table@[j2] == table0[j2]);
                                }
                            }
                            assert forall|j: int| 0 <= j < table@.len() implies (#[trigger] table@[j]).1 < internal@.len() && !internal@[table@[j].1 as int] by {
                                if j < table0.len() {
                                    assert(table@[j] == table0[j]);
                                    assert(internal@[table0[j].1 as int] == internal0[table0[j].1 as int]);
                                }
                            }
                            assert forall|j: int| 0 <= j < table@.len() implies ((#[trigger] table@[j]).1 == 0 <==> ground == Some(table@[j].0)) by {
                                if j < table0.len() {
                                    assert(table@[j] == table0[j]);
                                }
                            }
                            assert forall|j: int| 0 <= j < table@.len() && (#[trigger] table@[j]).1 >= 1 implies keys@[first[table@[j].1 as int]] == Some(table@[j].0) by {
                                if j < table0.len() {
                                    assert(table@[j] == table0[j]);
                                }
                            }
                            assert forall|i: int|
                                0 <= i < t + 1 && (#[trigger] keys@[i]) is Some implies 0 <= ent[i] < table@.len() && table@[ent[i]]
                                    == (keys@[i].unwrap(), nodes@[i]) by {
                                if i < t {
                                    assert(nodes@[i] == nodes0[i]);
                                    assert(table@[ent[i]] == table0[ent[i]]);
                                }
                            }
                            assert forall|i1: int, i2: int|
                                0 <= i1 < t + 1 && 0 <= i2 < t + 1 && i1 != i2 && (#[trigger] keys@[i1]) is None implies nodes@[i1]
                                    != (#[trigger] nodes@[i2]) by {
                                if i1 < t && i2 < t {
                                    assert(nodes@[i1] == nodes0[i1]);
                                    assert(nodes@[i2] == nodes0[i2]);
                                } else if i1 < t {
                                    assert(nodes@[i1] == nodes0[i1]);
                                }
                            }
                            assert forall|i: int| 0 <= i < t + 1 implies internal@[#[trigger] nodes@[i] as int] == keys@[i] is None by {
                                if i < t {
                                    assert(nodes@[i] == nodes0[i]);
                                    assert(internal@[nodes0[i] as int] == internal0[nodes0[i] as int]);
                                }
                            }
                            assert forall|i: int| 0 <= i < t + 1 && (#[trigger] nodes@[i]) >= 1 implies first[nodes@[i] as int] <= i by {
                                if i < t {
                                    assert(nodes@[i] == nodes0[i]);
                                }
                            }
                            assert forall|nn: int| 1 <= nn < internal@.len() implies 0 <= #[trigger] first[nn] < t + 1 && nodes@[first[nn]] == nn by {
                                if nn < internal0.len() {
                                    assert(nodes@[first[nn]] == nodes0[first[nn]]);
                                }
                            }
                            assert forall|i: int| 0 <= i < t + 1 implies (#[trigger] nodes@[i]) < internal@.len() by {
                                if i < t {
                                    assert(nodes@[i] == nodes0[i]);
                                }
                            }
                        }
                    },
                }
            },
            None => {
                let node = internal.len();
                internal.push(true);
                nodes.push(node);
                proof {
                    ent = ent.push(0);
                    first = first.push(t as int);
                    assert forall|j: int| 0 <= j < table@.len() implies (#[trigger] table@[j]).1 < internal@.len() && !internal@[table@[j].1 as int] by {
                        assert(internal@[table0[j].1 as int] == internal0[table0[j].1 as int]);
                    }
                    assert forall|i: int|
                        0 <= i < t + 1 && (#[trigger] keys@[i]) is Some implies 0 <= ent[i] < table@.len() && table@[ent[i]]
                            == (keys@[i].unwrap(), nodes@[i]) by {
                        if i < t {
                            assert(nodes@[i] == nodes0[i]);
                        }
                    }
                    assert forall|i1: int, i2: int|
                        0 <= i1 < t + 1 && 0 <= i2 < t + 1 && i1 != i2 && (#[trigger] keys@[i1]) is None implies nodes@[i1]
                            != (#[trigger] nodes@[i2]) by {
                        if i1 < t && i2 < t {
                            assert(nodes@[i1] == nodes0[i1]);
                            assert(nodes@[i2] == nodes0[i2]);
                        } else if i1 < t {
                            assert(nodes@[i1] == nodes0[i1]);
                        } else {
                            assert(nodes@[i2] == nodes0[i2]);
                        }
                    }
                    assert forall|i: int| 0 <= i < t + 1 implies internal@[#[trigger] nodes@[i] as int] == keys@[i] is None by {
                        if i < t {
                            assert(nodes@[i] == nodes0[i]);
                            assert(internal@[nodes0[i] as int] == internal0[nodes0[i] as int]);
                        }
                    }
                    assert forall|i: int| 0 <= i < t + 1 && (#[trigger] nodes@[i]) >= 1 implies first[nodes@[i] as int] <= i by {
                        if i < t {
                            assert(nodes@[i] == nodes0[i]);
                        }
                    }
                    assert forall|nn: int| 1 <= nn < internal@.len() implies 0 <= #[trigger] first[nn] < t + 1 && nodes@[first[nn]] == nn by {
                        if nn < internal0.len() {
                            assert(nodes@[first[nn]] == nodes0[first[nn]]);
                        }
                    }
                    assert forall|i: int| 0 <= i < t + 1 implies (#[trigger] nodes@[i]) < internal@.len() by {
                        if i < t {
                            assert(nodes@[i] == nodes0[i]);
                        }
                    }
                }
            },
        }
        t = t + 1;
    }
    proof {
        lemma_table_final(keys@, ground, nodes@, internal@, table@, ent, first);
    }
    (nodes, internal)
}

} // verus!
