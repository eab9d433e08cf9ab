//! Circuit analysis: from the element list to nodes, equation systems and
//! voltage-source rows.
use vstd::prelude::*;
use crate::error::SimError;
use crate::netlist::{ElementTopology, ground_point, same_net};
use crate::topology::{NodeLink, is_slot, slot_base, total_slots};
use crate::union_find::Point;
use crate::numbering::numbering_ok;

verus! {

/// One circuit node.
#[derive(Clone, Debug)]
pub struct Node {
    /// Number of the node; node 0 is ground.
    pub index: usize,
    /// Row of the node in its equation system.
    pub row: usize,
    /// Equation system of the node; none for ground.
    pub matrix: Option<usize>,
    /// The node is internal to one element.
    pub internal: bool,
    /// Element terminals on the node.
    pub links: Vec<NodeLink>,
}

/// One voltage source of one element, with its place in the equations.
#[derive(Clone, Copy, Debug)]
pub struct VoltageSource {
    /// Index of the element.
    pub elm: usize,
    /// Index of the source within the element.
    pub local: usize,
    /// Equation system the source belongs to.
    pub matrix: usize,
    /// Row of the source's current in that system.
    pub row: usize,
    /// Node at the source's first terminal.
    pub n1: usize,
    /// Node at the source's second terminal.
    pub n2: usize,
}

/// Shape of one independent equation system.
#[derive(Clone, Debug)]
pub struct MatrixLayout {
    /// Number of node rows.
    pub node_count: usize,
    /// Number of rows: node rows, then voltage-source rows.
    pub size: usize,
    /// The nodes of the system, in row order.
    pub node_ids: Vec<usize>,
}

/// Rows and node lists of the equation systems given by `cidx`.
pub open spec fn rows_ok(cidx: Seq<Option<usize>>, rows: Seq<usize>, ids: Seq<Vec<usize>>, nclos: int) -> bool {
    let count = cidx.len();
    &&& rows.len() == count
    &&& rows[0] == 0
    &&& ids.len() == nclos
    &&& forall|x: int|
        1 <= x < count ==> (#[trigger] rows[x]) < ids[cidx[x]->0 as int]@.len() && ids[cidx[x]->0 as int]@[rows[x] as int]
            == x
    &&& forall|m: int, j: int|
        0 <= m < nclos && 0 <= j < ids[m]@.len() ==> 1 <= (#[trigger] ids[m]@[j]) < count && cidx[ids[m]@[j] as int]
            == Some(m as usize)
    &&& forall|m: int, j1: int, j2: int|
        0 <= m < nclos && 0 <= j1 < j2 < ids[m]@.len() ==> #[trigger] ids[m]@[j1] < #[trigger] ids[m]@[j2]
}

/// Gives each node its row: its rank among the nodes of its system.
fn assign_rows(cidx: &Vec<Option<usize>>, nclos: usize) -> (r: (Vec<usize>, Vec<Vec<usize>>))
    requires
        cidx@.len() >= 1,
        cidx@[0] is None,
        forall|x: int| 1 <= x < cidx@.len() ==> (#[trigger] cidx@[x]) is Some && cidx@[x]->0 < nclos,
    ensures
        rows_ok(cidx@, r.0@, r.1@, nclos as int),
{
    let count = cidx.len();
    let mut ids: Vec<Vec<usize>> = Vec::new();
    let mut m: usize = 0;
    while m < nclos
        invariant
            ids@.len() == m,
            m <= nclos,
            forall|m2: int| 0 <= m2 < m ==> (#[trigger] ids@[m2])@.len() == 0,
        decreases nclos - m,
    {
        ids.push(Vec::new());
        m = m + 1;
    }
    let mut rows: Vec<usize> = Vec::new();
    rows.push(0);
    let mut i: usize = 1;
    while i < count
        invariant
            count == cidx@.len(),
            1 <= i <= count,
            cidx@[0] is None,
            forall|x: int| 1 <= x < count ==> (#[trigger] cidx@[x]) is Some && cidx@[x]->0 < nclos,
            rows@.len() == i,
            rows@[0] == 0,
            ids@.len() == nclos,
            forall|x: int|
                1 <= x < i ==> (#[trigger] rows@[x]) < ids@[cidx@[x]->0 as int]@.len() && ids@[cidx@[x]->0 as int]@[rows@[x] as int]
                    == x,
            forall|m2: int, j: int|
                0 <= m2 < nclos && 0 <= j < ids@[m2]@.len() ==> 1 <= (#[trigger] ids@[m2]@[j]) < i && cidx@[ids@[m2]@[j] as int]
                    == Some(m2 as usize),
            forall|m2: int, j1: int, j2: int|
                0 <= m2 < nclos && 0 <= j1 < j2 < ids@[m2]@.len() ==> #[trigger] ids@[m2]@[j1] < #[trigger] ids@[m2]@[j2],
        decreases count - i,
    {
        let mi = match cidx[i] {
            Some(v) => v,
            None => 0,
        };
        let ghost ids0 = ids@;
        let row = ids[mi].len();
        rows.push(row);
        ids[mi].push(i);
        proof {
            assert forall|x: int|
                1 <= x < i + 1 implies (#[trigger] rows@[x]) < ids@[cidx@[x]->0 as int]@.len() && ids@[cidx@[x]->0 as int]@[rows@[x] as int]
                    == x by {
                if x < i {
                    let mx = cidx@[x]->0 as int;
                    if mx != mi {
                        assert(ids@[mx] == ids0[mx]);
                    } else {
                        assert(ids@[mx]@[rows@[x] as int] == ids0[mx]@[rows@[x] as int]);
                    }
                } else {
                    assert(rows@[x] == row);
                }
            }
            assert forall|m2: int, j: int|
                0 <= m2 < nclos && 0 <= j < ids@[m2]@.len() implies 1 <= (#[trigger] ids@[m2]@[j]) < i + 1 && cidx@[ids@[m2]@[j] as int]
                    == Some(m2 as usize) by {
                if m2 != mi {
                    assert(ids@[m2] == ids0[m2]);
                } else if j < ids0[m2]@.len() {
                    assert(ids@[m2]@[j] == ids0[m2]@[j]);
                }
            }
            assert forall|m2: int, j1: int, j2: int|
                0 <= m2 < nclos && 0 <= j1 < j2 < ids@[m2]@.len() implies #[trigger] ids@[m2]@[j1] < #[trigger] ids@[m2]@[j2] by {
                if m2 != mi {
                    assert(ids@[m2] == ids0[m2]);
                } else {
                    assert(ids@[m2]@[j1] == ids0[m2]@[j1]);
                    if j2 < ids0[m2]@.len() {
                        assert(ids@[m2]@[j2] == ids0[m2]@[j2]);
                    }
                }
            }
        }
        i = i + 1;
    }
    (rows, ids)
}


/// Index of element `e`'s first voltage source among all of them, counted
/// element by element.
pub open spec fn vs_base(elems: Seq<ElementTopology>, e: int) -> int
    decreases e,
{
    if e <= 0 {
        0
    } else {
        vs_base(elems, e - 1) + elems[e - 1].voltage_sources@.len()
    }
}

/// Number of voltage sources of all elements.
pub open spec fn total_vs(elems: Seq<ElementTopology>) -> int {
    vs_base(elems, elems.len() as int)
}

/// Voltage-source bases grow with the element index.
pub proof fn lemma_vs_base_mono(elems: Seq<ElementTopology>, e1: int, e2: int)
    requires
        0 <= e1 <= e2 <= elems.len(),
    ensures
        0 <= vs_base(elems, e1) <= vs_base(elems, e2),
        e1 < e2 ==> vs_base(elems, e1) + elems[e1].voltage_sources@.len() <= vs_base(elems, e2),
    decreases e2 - e1,
{
    if e1 < e2 {
        lemma_vs_base_mono(elems, e1, e2 - 1);
    } else {
        lemma_vs_base_nonneg(elems, e1);
    }
}

proof fn lemma_vs_base_nonneg(elems: Seq<ElementTopology>, e: int)
    ensures
        vs_base(elems, e) >= 0,
    decreases e,
{
    if e > 0 {
        lemma_vs_base_nonneg(elems, e - 1);
    }
}

/// Node at a voltage-source terminal of element `e`: ground, or the node of
/// the element's terminal.
pub open spec fn term_node(en: Seq<Vec<usize>>, e: int, t: Option<usize>) -> int {
    match t {
        None => 0,
        Some(k) => en[e]@[k as int] as int,
    }
}

/// Equation system of a source between nodes `n1` and `n2`: that of `n1`
/// unless it is ground, else that of `n2` unless it is ground, else 0.
pub open spec fn source_matrix(cidx: Seq<Option<usize>>, n1: int, n2: int) -> int {
    if n1 != 0 {
        cidx[n1]->0 as int
    } else if n2 != 0 {
        cidx[n2]->0 as int
    } else {
        0
    }
}

/// Number of the first `n` sources that belong to system `m`.
pub open spec fn count_in(vs: Seq<VoltageSource>, n: int, m: int) -> nat
    decreases n,
{
    if n <= 0 {
        0
    } else {
        count_in(vs, n - 1, m) + if vs[n - 1].matrix == m {
            1nat
        } else {
            0nat
        }
    }
}

proof fn lemma_count_in_bound(vs: Seq<VoltageSource>, n: int, m: int)
    requires
        n >= 0,
    ensures
        count_in(vs, n, m) <= n,
    decreases n,
{
    if n > 0 {
        lemma_count_in_bound(vs, n - 1, m);
    }
}

proof fn lemma_count_in_prefix(vs1: Seq<VoltageSource>, vs2: Seq<VoltageSource>, n: int, m: int)
    requires
        0 <= n <= vs1.len(),
        n <= vs2.len(),
        forall|j: int| 0 <= j < n ==> vs1[j] == vs2[j],
    ensures
        count_in(vs1, n, m) == count_in(vs2, n, m),
    decreases n,
{
    if n > 0 {
        lemma_count_in_prefix(vs1, vs2, n - 1, m);
    }
}

/// The voltage sources of all elements, element by element, each with its
/// nodes, its system and its row after the node rows of that system, and
/// the size of each system.
pub open spec fn sources_ok(
    elems: Seq<ElementTopology>,
    en: Seq<Vec<usize>>,
    cidx: Seq<Option<usize>>,
    ncounts: Seq<usize>,
    vs: Seq<VoltageSource>,
    sizes: Seq<usize>,
) -> bool {
    &&& vs.len() == total_vs(elems)
    &&& forall|e: int, l: int|
        0 <= e < elems.len() && 0 <= l < elems[e].voltage_sources@.len() ==> {
            let v = #[trigger] vs[vs_base(elems, e) + l];
            let t = elems[e].voltage_sources@[l];
            &&& v.elm == e
            &&& v.local == l
            &&& v.n1 == term_node(en, e, t.0)
            &&& v.n2 == term_node(en, e, t.1)
            &&& v.matrix == source_matrix(cidx, v.n1 as int, v.n2 as int)
            &&& v.row == ncounts[v.matrix as int] + count_in(vs, vs_base(elems, e) + l, v.matrix as int)
        }
    &&& sizes.len() == ncounts.len()
    &&& forall|m: int| 0 <= m < ncounts.len() ==> #[trigger] sizes[m] == ncounts[m] + count_in(vs, vs.len() as int, m)
}

/// Lists the voltage sources and places each in its system, after that
/// system's node rows.
fn assign_sources(
    elems: &Vec<ElementTopology>,
    en: &Vec<Vec<usize>>,
    cidx: &Vec<Option<usize>>,
    ncounts: &Vec<usize>,
) -> (r: (Vec<VoltageSource>, Vec<usize>))
    requires
        crate::topology::elements_wf_rows(elems@, en@, cidx@.len() as int),
        cidx@.len() >= 1,
        forall|x: int| 1 <= x < cidx@.len() ==> (#[trigger] cidx@[x]) is Some && cidx@[x]->0 < ncounts@.len(),
        ncounts@.len() >= 1,
        forall|m: int| 0 <= m < ncounts@.len() ==> #[trigger] ncounts@[m] <= cidx@.len(),
        cidx@.len() + total_vs(elems@) < usize::MAX,
    ensures
        sources_ok(elems@, en@, cidx@, ncounts@, r.0@, r.1@),
{
    let ghost es = elems@;
    let ghost enr = en@;
    let count = cidx.len();
    let nm = ncounts.len();
    let mut per: Vec<usize> = Vec::new();
    let mut m: usize = 0;
    while m < nm
        invariant
            per@.len() == m,
            m <= nm,
            forall|m2: int| 0 <= m2 < m ==> #[trigger] per@[m2] == 0,
        decreases nm - m,
    {
        per.push(0);
        m = m + 1;
    }
    let mut vs: Vec<VoltageSource> = Vec::new();
    let n = elems.len();
    let mut e: usize = 0;
    while e < n
        invariant
            es == elems@,
            enr == en@,
            n == es.len(),
            e <= n,
            count == cidx@.len(),
            nm == ncounts@.len(),
            crate::topology::elements_wf_rows(es, enr, count as int),
            count >= 1,
            nm >= 1,
            forall|x: int| 1 <= x < count ==> (#[trigger] cidx@[x]) is Some && cidx@[x]->0 < nm,
            forall|m2: int| 0 <= m2 < nm ==> #[trigger] ncounts@[m2] <= count,
            count + total_vs(es) < usize::MAX,
            vs@.len() == vs_base(es, e as int),
            per@.len() == nm,
            forall|m2: int| 0 <= m2 < nm ==> #[trigger] per@[m2] == count_in(vs@, vs@.len() as int, m2),
            forall|j: int| 0 <= j < vs@.len() ==> (#[trigger] vs@[j]).matrix < nm,
            forall|e2: int, l: int|
                0 <= e2 < e && 0 <= l < es[e2].voltage_sources@.len() ==> {
                    let v = #[trigger] vs@[vs_base(es, e2) + l];
                    let t = es[e2].voltage_sources@[l];
                    &&& v.elm == e2
                    &&& v.local == l
                    &&& v.n1 == term_node(enr, e2, t.0)
                    &&& v.n2 == term_node(enr, e2, t.1)
                    &&& v.matrix == source_matrix(cidx@, v.n1 as int, v.n2 as int)
                    &&& v.row == ncounts@[v.matrix as int] + count_in(vs@, vs_base(es, e2) + l, v.matrix as int)
                },
        decreases n - e,
    {
        proof {
            assert(es[e as int].wf());
            lemma_vs_base_mono(es, e as int + 1, n as int);
            lemma_vs_base_mono(es, e as int, n as int);
        }
        let nv = elems[e].voltage_sources.len();
        let ghost vs0 = vs@;
        let mut l: usize = 0;
        while l < nv
            invariant
                es == elems@,
                enr == en@,
                n == es.len(),
                e < n,
                es[e as int].wf(),
                nv == es[e as int].voltage_sources@.len(),
                l <= nv,
                count == cidx@.len(),
                nm == ncounts@.len(),
                crate::topology::elements_wf_rows(es, enr, count as int),
                count >= 1,
                nm >= 1,
                forall|x: int| 1 <= x < count ==> (#[trigger] cidx@[x]) is Some && cidx@[x]->0 < nm,
                forall|m2: int| 0 <= m2 < nm ==> #[trigger] ncounts@[m2] <= count,
                count + total_vs(es) < usize::MAX,
                vs_base(es, e as int) + nv <= total_vs(es),
                vs0.len() == vs_base(es, e as int),
                vs@.len() == vs0.len() + l,
                forall|j: int| 0 <= j < vs0.len() ==> vs@[j] == vs0[j],
                per@.len() == nm,
                forall|m2: int| 0 <= m2 < nm ==> #[trigger] per@[m2] == count_in(vs@, vs@.len() as int, m2),
                forall|j: int| 0 <= j < vs@.len() ==> (#[trigger] vs@[j]).matrix < nm,
                forall|e2: int, l2: int|
                    0 <= e2 < e && 0 <= l2 < es[e2].voltage_sources@.len() ==> {
                        let v = #[trigger] vs0[vs_base(es, e2) + l2];
                        let t = es[e2].voltage_sources@[l2];
                        &&& v.elm == e2
                        &&& v.local == l2
                        &&& v.n1 == term_node(enr, e2, t.0)
                        &&& v.n2 == term_node(enr, e2, t.1)
                        &&& v.matrix == source_matrix(cidx@, v.n1 as int, v.n2 as int)
                        &&& v.row == ncounts@[v.matrix as int] + count_in(vs0, vs_base(es, e2) + l2, v.matrix as int)
                    },
                forall|l2: int|
                    0 <= l2 < l ==> {
                        let v = #[trigger] vs@[vs0.len() + l2];
                        let t = es[e as int].voltage_sources@[l2];
                        &&& v.elm == e
                        &&& v.local == l2
                        &&& v.n1 == term_node(enr, e as int, t.0)
                        &&& v.n2 == term_node(enr, e as int, t.1)
                        &&& v.matrix == source_matrix(cidx@, v.n1 as int, v.n2 as int)
                        &&& v.row == ncounts@[v.matrix as int] + count_in(vs@, vs0.len() + l2, v.matrix as int)
                    },
            decreases nv - l,
        {
            let t = elems[e].voltage_sources[l];
            proof {
                assert(crate::netlist::terminal_ok(es[e as int].voltage_sources@[l as int], es[e as int].node_count()));
            }
            let n1 = match t.0 {
                None => 0,
                Some(k) => en[e][k],
            };
            let n2 = match t.1 {
                None => 0,
                Some(k) => en[e][k],
            };
            let mi: usize = if n1 != 0 {
                match cidx[n1] {
                    Some(v) => v,
                    None => 0,
                }
            } else if n2 != 0 {
                match cidx[n2] {
                    Some(v) => v,
                    None => 0,
                }
            } else {
                0
            };
            proof {
                lemma_count_in_bound(vs@, vs@.len() as int, mi as int);
            }
            let row = ncounts[mi] + per[mi];
            let ghost vs1 = vs@;
            vs.push(VoltageSource { elm: e, local: l, matrix: mi, row, n1, n2 });
            let cur = per[mi];
            per.set(mi, cur + 1);
            proof {
                lemma_count_in_prefix(vs1, vs@, vs1.len() as int, mi as int);
                assert forall|m2: int| 0 <= m2 < nm implies #[trigger] per@[m2] == count_in(vs@, vs@.len() as int, m2) by {
                    lemma_count_in_prefix(vs1, vs@, vs1.len() as int, m2);
                }
                assert forall|j: int| 0 <= j < vs@.len() implies (#[trigger] vs@[j]).matrix < nm by {
                    if j < vs1.len() {
                        assert(vs@[j] == vs1[j]);
                    }
                }
                assert forall|l2: int|
                    0 <= l2 < l + 1 implies {
                        let v = #[trigger] vs@[vs0.len() + l2];
                        let t = es[e as int].voltage_sources@[l2];
                        &&& v.elm == e
                        &&& v.local == l2
                        &&& v.n1 == term_node(enr, e as int, t.0)
                        &&& v.n2 == term_node(enr, e as int, t.1)
                        &&& v.matrix == source_matrix(cidx@, v.n1 as int, v.n2 as int)
                        &&& v.row == ncounts@[v.matrix as int] + count_in(vs@, vs0.len() + l2, v.matrix as int)
                    } by {
                    if l2 < l {
                        assert(vs@[vs0.len() + l2] == vs1[vs0.len() + l2]);
                        lemma_count_in_prefix(vs1, vs@, vs0.len() + l2, vs1[vs0.len() + l2].matrix as int);
                    }
                }
            }
            l = l + 1;
        }
        proof {
            assert forall|e2: int, l2: int|
                0 <= e2 < e + 1 && 0 <= l2 < es[e2].voltage_sources@.len() implies {
                    let v = #[trigger] vs@[vs_base(es, e2) + l2];
                    let t = es[e2].voltage_sources@[l2];
                    &&& v.elm == e2
                    &&& v.local == l2
                    &&& v.n1 == term_node(enr, e2, t.0)
                    &&& v.n2 == term_node(enr, e2, t.1)
                    &&& v.matrix == source_matrix(cidx@, v.n1 as int, v.n2 as int)
                    &&& v.row == ncounts@[v.matrix as int] + count_in(vs@, vs_base(es, e2) + l2, v.matrix as int)
                } by {
                if e2 < e {
                    lemma_vs_base_mono(es, e2, e as int);
                    let j = vs_base(es, e2) + l2;
                    assert(vs@[j] == vs0[j]);
                    lemma_count_in_prefix(vs0, vs@, j, vs0[j].matrix as int);
                } else {
                    assert(vs@[vs0.len() + l2] == vs@[vs_base(es, e2) + l2]);
                }
            }
        }
        e = e + 1;
    }
    let mut sizes: Vec<usize> = Vec::new();
    let mut m: usize = 0;
    while m < nm
        invariant
            nm == ncounts@.len(),
            per@.len() == nm,
            m <= nm,
            vs@.len() == total_vs(elems@),
            count + total_vs(elems@) < usize::MAX,
            forall|m2: int| 0 <= m2 < nm ==> #[trigger] ncounts@[m2] <= count,
            forall|m2: int| 0 <= m2 < nm ==> #[trigger] per@[m2] == count_in(vs@, vs@.len() as int, m2),
            sizes@.len() == m,
            forall|m2: int| 0 <= m2 < m ==> #[trigger] sizes@[m2] == ncounts@[m2] + count_in(vs@, vs@.len() as int, m2),
        decreases nm - m,
    {
        proof {
            lemma_count_in_bound(vs@, vs@.len() as int, m as int);
        }
        sizes.push(ncounts[m] + per[m]);
        m = m + 1;
    }
    (vs, sizes)
}


/// Some terminal before terminal `(e, k)` is on node `n`.
pub open spec fn used_earlier(elems: Seq<ElementTopology>, en: Seq<Vec<usize>>, e: int, k: int, n: int) -> bool {
    exists|e2: int, k2: int|
        #![trigger en[e2]@[k2]]
        is_slot(elems, e2, k2) && (e2 < e || (e2 == e && k2 < k)) && en[e2]@[k2] == n
}

/// Some terminal is on node `n`.
pub open spec fn node_used(elems: Seq<ElementTopology>, en: Seq<Vec<usize>>, n: int) -> bool {
    exists|e: int, k: int| #![trigger en[e]@[k]] is_slot(elems, e, k) && en[e]@[k] == n
}

/// The node of every terminal: posts on one net share a node and posts on
/// different nets do not; the ground net is node 0; every internal
/// terminal has a node of its own; nodes are numbered in order of first use.
pub open spec fn nets_ok(elems: Seq<ElementTopology>, en: Seq<Vec<usize>>, internal: Seq<bool>) -> bool {
    let count = internal.len();
    &&& count >= 1
    &&& !internal[0]
    &&& crate::topology::elements_wf_rows(elems, en, count as int)
    &&& forall|e: int, j: int, e2: int, j2: int|
        0 <= e < elems.len() && 0 <= j < elems[e].posts@.len() && 0 <= e2 < elems.len() && 0 <= j2
            < elems[e2].posts@.len() ==> (#[trigger] en[e]@[j] == #[trigger] en[e2]@[j2] <==> same_net(
            elems,
            elems[e].posts@[j],
            elems[e2].posts@[j2],
        ))
    &&& forall|e: int, j: int|
        0 <= e < elems.len() && 0 <= j < elems[e].posts@.len() ==> (#[trigger] en[e]@[j] == 0 <==> (
        ground_point(elems) matches Some(g) && same_net(elems, elems[e].posts@[j], g)))
    &&& forall|e: int, k: int|
        is_slot(elems, e, k) ==> (internal[#[trigger] en[e]@[k] as int] <==> k >= elems[e].posts@.len())
    &&& forall|e: int, k: int, e2: int, k2: int|
        is_slot(elems, e, k) && is_slot(elems, e2, k2) && k >= elems[e].posts@.len() && (e != e2 || k != k2)
            ==> #[trigger] en[e]@[k] != #[trigger] en[e2]@[k2]
    &&& forall|n: int| 1 <= n < count ==> #[trigger] node_used(elems, en, n)
    &&& forall|e: int, k: int, n: int|
        is_slot(elems, e, k) && 1 <= n < #[trigger] en[e]@[k] ==> #[trigger] used_earlier(elems, en, e, k, n)
}

proof fn lemma_slot_of_upto(elems: Seq<ElementTopology>, t: int, n: int) -> (r: (int, int))
    requires
        0 <= n <= elems.len(),
        0 <= t < slot_base(elems, n),
    ensures
        is_slot(elems, r.0, r.1),
        r.0 < n,
        slot_base(elems, r.0) + r.1 == t,
    decreases n,
{
    if t >= slot_base(elems, n - 1) {
        (n - 1, t - slot_base(elems, n - 1))
    } else {
        lemma_slot_of_upto(elems, t, n - 1)
    }
}

/// The terminal at flat position `t`.
proof fn lemma_slot_of(elems: Seq<ElementTopology>, t: int) -> (r: (int, int))
    requires
        0 <= t < total_slots(elems),
    ensures
        is_slot(elems, r.0, r.1),
        slot_base(elems, r.0) + r.1 == t,
{
    lemma_slot_of_upto(elems, t, elems.len() as int)
}

/// What the net classes, the flat numbering and its split into rows give.
proof fn lemma_nets(
    elems: Seq<ElementTopology>,
    m: Map<Point, Point>,
    ground: Option<Point>,
    keys: Seq<Option<Point>>,
    flat: Seq<usize>,
    internal: Seq<bool>,
    en: Seq<Vec<usize>>,
)
    requires
        crate::netlist::elements_wf(elems),
        crate::netlist::posts_recorded(elems, m),
        forall|p: Point, q: Point|
            #![trigger m[p], m[q]]
            m.dom().contains(p) && m.dom().contains(q) ==> (m[p] == m[q] <==> same_net(elems, p, q)),
        ground_point(elems) matches Some(g) ==> m.dom().contains(g),
        ground == (match ground_point(elems) {
            Some(g) => Some(m[g]),
            None => None,
        }),
        keys.len() == total_slots(elems),
        forall|e: int, k: int|
            #![trigger crate::topology::slot_key(elems, m, e, k)]
            is_slot(elems, e, k) ==> keys[slot_base(elems, e) + k] == crate::topology::slot_key(elems, m, e, k),
        numbering_ok(keys, ground, flat, internal),
        crate::topology::rows_of(elems, flat, en),
    ensures
        nets_ok(elems, en, internal),
{
    let count = internal.len();
    assert forall|e: int, k: int| is_slot(elems, e, k) implies (#[trigger] en[e]@[k]) < count by {
        crate::topology::lemma_slot_index(elems, e, k, e, k);
    }
    assert forall|e: int, j: int, e2: int, j2: int|
        0 <= e < elems.len() && 0 <= j < elems[e].posts@.len() && 0 <= e2 < elems.len() && 0 <= j2
            < elems[e2].posts@.len() implies (#[trigger] en[e]@[j] == #[trigger] en[e2]@[j2] <==> same_net(
            elems,
            elems[e].posts@[j],
            elems[e2].posts@[j2],
        )) by {
        let t1 = slot_base(elems, e) + j;
        let t2 = slot_base(elems, e2) + j2;
        crate::topology::lemma_slot_index(elems, e, j, e2, j2);
        crate::topology::lemma_slot_index(elems, e2, j2, e2, j2);
        assert(keys[t1] == crate::topology::slot_key(elems, m, e, j));
        assert(keys[t2] == crate::topology::slot_key(elems, m, e2, j2));
        let p = elems[e].posts@[j];
        let q = elems[e2].posts@[j2];
        assert(m.dom().contains(p));
        assert(m.dom().contains(q));
        assert(m[p] == m[q] <==> same_net(elems, p, q));
    }
    assert forall|e: int, j: int|
        0 <= e < elems.len() && 0 <= j < elems[e].posts@.len() implies (#[trigger] en[e]@[j] == 0 <==> (
        ground_point(elems) matches Some(g) && same_net(elems, elems[e].posts@[j], g))) by {
        let t1 = slot_base(elems, e) + j;
        crate::topology::lemma_slot_index(elems, e, j, e, j);
        assert(keys[t1] == crate::topology::slot_key(elems, m, e, j));
        let p = elems[e].posts@[j];
        assert(m.dom().contains(p));
        if let Some(g) = ground_point(elems) {
            assert(m[p] == m[g] <==> same_net(elems, p, g));
        }
    }
    assert forall|e: int, k: int|
        is_slot(elems, e, k) implies (internal[#[trigger] en[e]@[k] as int] <==> k >= elems[e].posts@.len()) by {
        let t1 = slot_base(elems, e) + k;
        crate::topology::lemma_slot_index(elems, e, k, e, k);
        assert(keys[t1] == crate::topology::slot_key(elems, m, e, k));
    }
    assert forall|e: int, k: int, e2: int, k2: int|
        is_slot(elems, e, k) && is_slot(elems, e2, k2) && k >= elems[e].posts@.len() && (e != e2 || k != k2)
            implies #[trigger] en[e]@[k] != #[trigger] en[e2]@[k2] by {
        let t1 = slot_base(elems, e) + k;
        let t2 = slot_base(elems, e2) + k2;
        crate::topology::lemma_slot_index(elems, e, k, e2, k2);
        crate::topology::lemma_slot_index(elems, e2, k2, e2, k2);
        assert(keys[t1] == crate::topology::slot_key(elems, m, e, k));
        assert(keys[t1] is None);
        assert(t1 != t2);
        assert(en[e]@[k] == flat[t1]);
        assert(en[e2]@[k2] == flat[t2]);
        assert(flat[t1] != flat[t2]);
    }
    assert forall|n: int| 1 <= n < count implies #[trigger] node_used(elems, en, n) by {
        assert(crate::numbering::used_before(flat, keys.len() as int, n));
        let t = choose|t: int| 0 <= t < keys.len() as int && #[trigger] flat[t] == n;
        let (e, k) = lemma_slot_of(elems, t);
        assert(en[e]@[k] == flat[t]);
    }
    assert forall|e: int, k: int, n: int|
        is_slot(elems, e, k) && 1 <= n < #[trigger] en[e]@[k] implies #[trigger] used_earlier(elems, en, e, k, n) by {
        let t = slot_base(elems, e) + k;
        crate::topology::lemma_slot_index(elems, e, k, e, k);
        assert(en[e]@[k] == flat[t]);
        assert(crate::numbering::used_before(flat, t, n));
        let t2 = choose|t2: int| 0 <= t2 < t && #[trigger] flat[t2] == n;
        let (e2, k2) = lemma_slot_of(elems, t2);
        crate::topology::lemma_slot_index(elems, e2, k2, e, k);
        assert(en[e2]@[k2] == flat[t2]);
    }
}


/// Result of analysing a circuit.
#[derive(Clone, Debug)]
pub struct Topology {
    /// All nodes; node 0 is ground.
    pub nodes: Vec<Node>,
    /// `element_nodes[e][k]`: node of terminal `k` of element `e` (posts,
    /// then internal nodes).
    pub element_nodes: Vec<Vec<usize>>,
    /// All voltage sources, element by element.
    pub voltage_sources: Vec<VoltageSource>,
    /// Nodes with no conducting path to ground, each the first of its
    /// floating group.
    pub unconnected: Vec<usize>,
    /// The independent equation systems.
    pub matrices: Vec<MatrixLayout>,
    /// Some element is nonlinear.
    pub nonlinear: bool,
}

/// Equation system of every node.
pub open spec fn node_matrices(nodes: Seq<Node>) -> Seq<Option<usize>> {
    Seq::new(nodes.len(), |i: int| nodes[i].matrix)
}

/// Internal flag of every node.
pub open spec fn node_internal(nodes: Seq<Node>) -> Seq<bool> {
    Seq::new(nodes.len(), |i: int| nodes[i].internal)
}

/// Row of every node.
pub open spec fn node_rows(nodes: Seq<Node>) -> Seq<usize> {
    Seq::new(nodes.len(), |i: int| nodes[i].row)
}

/// Links of every node.
pub open spec fn node_links(nodes: Seq<Node>) -> Seq<Vec<NodeLink>> {
    Seq::new(nodes.len(), |i: int| nodes[i].links)
}

/// Node lists of the systems.
pub open spec fn matrix_ids(ms: Seq<MatrixLayout>) -> Seq<Vec<usize>> {
    Seq::new(ms.len(), |i: int| ms[i].node_ids)
}

/// Node-row counts of the systems.
pub open spec fn matrix_node_counts(ms: Seq<MatrixLayout>) -> Seq<usize> {
    Seq::new(ms.len(), |i: int| ms[i].node_count)
}

/// Sizes of the systems.
pub open spec fn matrix_sizes(ms: Seq<MatrixLayout>) -> Seq<usize> {
    Seq::new(ms.len(), |i: int| ms[i].size)
}

/// Some element is nonlinear.
pub open spec fn any_nonlinear(elems: Seq<ElementTopology>) -> bool {
    exists|e: int| 0 <= e < elems.len() && #[trigger] elems[e].non_linear
}

/// `t` is the analysis of `elems`.
pub open spec fn analysis_ok(elems: Seq<ElementTopology>, t: Topology) -> bool {
    let nodes = t.nodes@;
    let en = t.element_nodes@;
    let ms = t.matrices@;
    let cidx = node_matrices(nodes);
    &&& forall|n: int| 0 <= n < nodes.len() ==> (#[trigger] nodes[n]).index == n
    &&& nets_ok(elems, en, node_internal(nodes))
    &&& crate::topology::links_of(elems, en, nodes.len() as int, node_links(nodes))
    &&& crate::topology::unconnected_ok(elems, en, node_internal(nodes), t.unconnected@)
    &&& crate::topology::closures_ok(elems, en, cidx, ms.len() as int)
    &&& rows_ok(cidx, node_rows(nodes), matrix_ids(ms), ms.len() as int)
    &&& forall|m: int| 0 <= m < ms.len() ==> (#[trigger] ms[m]).node_count == ms[m].node_ids@.len()
    &&& sources_ok(elems, en, cidx, matrix_node_counts(ms), t.voltage_sources@, matrix_sizes(ms))
    &&& t.nonlinear == any_nonlinear(elems)
}

/// A copy of `v`.
fn copy_vec<T: Copy>(v: &Vec<T>) -> (r: Vec<T>)
    ensures
        r@ == v@,
{
    let mut r: Vec<T> = Vec::new();
    let mut i: usize = 0;
    while i < v.len()
        invariant
            i <= v@.len(),
            r@ == v@.take(i as int),
        decreases v@.len() - i,
    {
        r.push(v[i]);
        proof {
            assert(v@.take(i as int + 1) =~= v@.take(i as int).push(v@[i as int]));
        }
        i = i + 1;
    }
    proof {
        assert(v@.take(v@.len() as int) =~= v@);
    }
    r
}

/// Analyses a circuit: numbers its nodes, finds the nodes that float, splits
/// the nodes into independent equation systems and gives each node and each
/// voltage source its row. Fails on an empty circuit.
pub fn analyze(elems: &Vec<ElementTopology>) -> (r: Result<Topology, SimError>)
    requires
        crate::netlist::elements_wf(elems@),
        total_slots(elems@) + total_vs(elems@) + 2 < usize::MAX,
    ensures
        r is Err <==> elems@.len() == 0,
        r matches Err(e) ==> e is EmptyCircuit,
        r matches Ok(t) ==> analysis_ok(elems@, t),
{
    if elems.len() == 0 {
        return Err(SimError::EmptyCircuit);
    }
    let ghost es = elems@;
    proof {
        crate::topology::lemma_slot_base_mono(es, 0, es.len() as int);
        lemma_vs_base_mono(es, 0, es.len() as int);
    }
    let (mut uf, ground) = crate::netlist::net_classes(elems);
    let ghost m = uf@;
    let keys = crate::topology::collect_keys(elems, &mut uf);
    let (flat, internal) = crate::numbering::number_slots(&keys, ground);
    let en = crate::topology::split_rows(elems, &flat);
    proof {
        lemma_nets(es, m, ground, keys@, flat@, internal@, en@);
    }
    let count = internal.len();
    let links = crate::topology::collect_links(elems, &en, count);
    let unconnected = crate::topology::find_unconnected(elems, &en, &links, &internal);
    let (cidx, nclos) = crate::topology::calculate_closures(elems, &en, &links, count);
    let (rows, ids) = assign_rows(&cidx, nclos);
    let mut ncounts: Vec<usize> = Vec::new();
    let mut mi: usize = 0;
    while mi < nclos
        invariant
            rows_ok(cidx@, rows@, ids@, nclos as int),
            mi <= nclos,
            ncounts@.len() == mi,
            forall|m2: int| 0 <= m2 < mi ==> #[trigger] ncounts@[m2] == ids@[m2]@.len(),
        decreases nclos - mi,
    {
        ncounts.push(ids[mi].len());
        mi = mi + 1;
    }
    proof {
        assert forall|m2: int| 0 <= m2 < nclos implies #[trigger] ncounts@[m2] <= cidx@.len() by {
            lemma_increasing_len(ids@[m2]@, cidx@.len() as int);
        }
    }
    let (vs, sizes) = assign_sources(elems, &en, &cidx, &ncounts);
    let mut nonlinear = false;
    let mut e: usize = 0;
    while e < elems.len()
        invariant
            es == elems@,
            e <= es.len(),
            nonlinear == exists|e2: int| 0 <= e2 < e && #[trigger] es[e2].non_linear,
        decreases es.len() - e,
    {
        if elems[e].non_linear {
            nonlinear = true;
        }
        e = e + 1;
    }
    let mut nodes: Vec<Node> = Vec::new();
    let mut n: usize = 0;
    while n < count
        invariant
            count == internal@.len(),
            count == cidx@.len(),
            count == links@.len(),
            rows@.len() == count,
            n <= count,
            nodes@.len() == n,
            forall|i: int| 0 <= i < n ==> {
                let nd = #[trigger] nodes@[i];
                &&& nd.index == i
                &&& nd.row == rows@[i]
                &&& nd.matrix == cidx@[i]
                &&& nd.internal == internal@[i]
                &&& nd.links@ == links@[i]@
            },
        decreases count - n,
    {
        let ls = copy_vec(&links[n]);
        nodes.push(Node { index: n, row: rows[n], matrix: cidx[n], internal: internal[n], links: ls });
        n = n + 1;
    }
    let mut matrices: Vec<MatrixLayout> = Vec::new();
    let mut k: usize = 0;
    while k < nclos
        invariant
            ids@.len() == nclos,
            ncounts@.len() == nclos,
            sizes@.len() == nclos,
            k <= nclos,
            matrices@.len() == k,
            forall|m2: int| 0 <= m2 < nclos ==> #[trigger] ncounts@[m2] == ids@[m2]@.len(),
            forall|i: int| 0 <= i < k ==> {
                let mt = #[trigger] matrices@[i];
                &&& mt.node_count == ncounts@[i]
                &&& mt.size == sizes@[i]
                &&& mt.node_ids@ == ids@[i]@
            },
        decreases nclos - k,
    {
        let node_ids = copy_vec(&ids[k]);
        matrices.push(MatrixLayout { node_count: ncounts[k], size: sizes[k], node_ids });
        k = k + 1;
    }
    let t = Topology { nodes, element_nodes: en, voltage_sources: vs, unconnected, matrices, nonlinear };
    proof {
        let nd = t.nodes@;
        let ms = t.matrices@;
        assert(node_matrices(nd) =~= cidx@);
        assert(node_internal(nd) =~= internal@);
        assert(node_rows(nd) =~= rows@);
        lemma_links_views(es, en@, count as int, links@, node_links(nd));
        lemma_rows_views(cidx@, rows@, ids@, matrix_ids(ms), nclos as int);
        assert(matrix_node_counts(ms) =~= ncounts@);
        assert(matrix_sizes(ms) =~= sizes@);
    }
    Ok(t)
}

/// A strictly increasing sequence of numbers below `bound` has at most
/// `bound` entries.
proof fn lemma_increasing_len(s: Seq<usize>, bound: int)
    requires
        bound >= 0,
        forall|j: int| 0 <= j < s.len() ==> (#[trigger] s[j]) < bound,
        forall|j1: int, j2: int| 0 <= j1 < j2 < s.len() ==> #[trigger] s[j1] < #[trigger] s[j2],
    ensures
        s.len() <= bound,
{
    if s.len() > 0 {
        lemma_increasing_from(s, s.len() - 1);
        assert(s[s.len() - 1] < bound);
    }
}

proof fn lemma_increasing_from(s: Seq<usize>, j: int)
    requires
        0 <= j < s.len(),
        forall|j1: int, j2: int| 0 <= j1 < j2 < s.len() ==> #[trigger] s[j1] < #[trigger] s[j2],
    ensures
        s[j] >= j,
    decreases j,
{
    if j > 0 {
        lemma_increasing_from(s, j - 1);
        assert(s[j - 1] < s[j]);
    }
}


proof fn lemma_links_views(
    elems: Seq<ElementTopology>,
    en: Seq<Vec<usize>>,
    count: int,
    l1: Seq<Vec<NodeLink>>,
    l2: Seq<Vec<NodeLink>>,
)
    requires
        crate::topology::links_of(elems, en, count, l1),
        forall|e: int, k: int| is_slot(elems, e, k) ==> (#[trigger] en[e]@[k]) < count,
        l2.len() == l1.len(),
        forall|i: int| 0 <= i < l1.len() ==> (#[trigger] l2[i])@ == l1[i]@,
    ensures
        crate::topology::links_of(elems, en, count, l2),
{
    assert forall|n: int, i: int|
        #![trigger l2[n]@[i]]
        0 <= n < count && 0 <= i < l2[n]@.len() implies is_slot(elems, l2[n]@[i].elm as int, l2[n]@[i].post as int)
            && en[l2[n]@[i].elm as int]@[l2[n]@[i].post as int] == n by {
        assert(l2[n]@ == l1[n]@);
        assert(l1[n]@[i] == l2[n]@[i]);
    }
    assert forall|n: int, i1: int, i2: int|
        #![trigger l2[n]@[i1], l2[n]@[i2]]
        0 <= n < count && 0 <= i1 < i2 < l2[n]@.len() implies crate::topology::link_before(l2[n]@[i1], l2[n]@[i2]) by {
        assert(l2[n]@ == l1[n]@);
        assert(l1[n]@[i1] == l2[n]@[i1]);
        assert(l1[n]@[i2] == l2[n]@[i2]);
    }
    assert forall|e: int, k: int|
        is_slot(elems, e, k) implies #[trigger] crate::topology::linked(l2[en[e]@[k] as int]@, e, k) by {
        assert(crate::topology::linked(l1[en[e]@[k] as int]@, e, k));
        assert(l2[en[e]@[k] as int]@ == l1[en[e]@[k] as int]@);
    }
}

proof fn lemma_rows_views(
    cidx: Seq<Option<usize>>,
    rows: Seq<usize>,
    ids1: Seq<Vec<usize>>,
    ids2: Seq<Vec<usize>>,
    nclos: int,
)
    requires
        rows_ok(cidx, rows, ids1, nclos),
        forall|x: int| 1 <= x < cidx.len() ==> (#[trigger] cidx[x]) is Some && cidx[x]->0 < nclos,
        ids2.len() == ids1.len(),
        forall|i: int| 0 <= i < ids1.len() ==> (#[trigger] ids2[i])@ == ids1[i]@,
    ensures
        rows_ok(cidx, rows, ids2, nclos),
{
    assert forall|x: int|
        1 <= x < cidx.len() implies (#[trigger] rows[x]) < ids2[cidx[x]->0 as int]@.len() && ids2[cidx[x]->0 as int]@[rows[x] as int]
            == x by {
        assert(ids2[cidx[x]->0 as int]@ == ids1[cidx[x]->0 as int]@);
    }
    assert forall|m: int, j: int|
        0 <= m < nclos && 0 <= j < ids2[m]@.len() implies 1 <= (#[trigger] ids2[m]@[j]) < cidx.len() && cidx[ids2[m]@[j] as int]
            == Some(m as usize) by {
        assert(ids2[m]@ == ids1[m]@);
        assert(ids1[m]@[j] == ids2[m]@[j]);
    }
    assert forall|m: int, j1: int, j2: int|
        0 <= m < nclos && 0 <= j1 < j2 < ids2[m]@.len() implies #[trigger] ids2[m]@[j1] < #[trigger] ids2[m]@[j2] by {
        assert(ids2[m]@ == ids1[m]@);
        assert(ids1[m]@[j1] == ids2[m]@[j1]);
        assert(ids1[m]@[j2] == ids2[m]@[j2]);
    }
}


proof fn lemma_count_in_mono(vs: Seq<VoltageSource>, a: int, b: int, m: int)
    requires
        0 <= a <= b,
    ensures
        count_in(vs, a, m) <= count_in(vs, b, m),
    decreases b - a,
{
    if a < b {
        lemma_count_in_mono(vs, a, b - 1, m);
    }
}

/// Within one equation system no two nodes share a row, and every node's
/// row is below the system's number of node rows.
pub proof fn lemma_node_rows_distinct(elems: Seq<ElementTopology>, t: Topology)
    requires
        analysis_ok(elems, t),
    ensures
        forall|x: int|
            1 <= x < t.nodes@.len() ==> (#[trigger] t.nodes@[x].matrix matches Some(m) && m < t.matrices@.len()
                && t.nodes@[x].row < t.matrices@[m as int].node_count),
        forall|x: int, y: int|
            1 <= x < t.nodes@.len() && 1 <= y < t.nodes@.len() && x != y && #[trigger] t.nodes@[x].matrix
                == #[trigger] t.nodes@[y].matrix ==> t.nodes@[x].row != t.nodes@[y].row,
{
    let nodes = t.nodes@;
    let ms = t.matrices@;
    let cidx = node_matrices(nodes);
    let rows = node_rows(nodes);
    let ids = matrix_ids(ms);
    assert forall|x: int|
        1 <= x < nodes.len() implies (#[trigger] nodes[x].matrix matches Some(m) && m < ms.len() && nodes[x].row
            < ms[m as int].node_count) by {
        assert(cidx[x] == nodes[x].matrix);
        assert(rows[x] == nodes[x].row);
        let m = cidx[x]->0 as int;
        assert(ids[m] == ms[m].node_ids);
    }
    assert forall|x: int, y: int|
        1 <= x < nodes.len() && 1 <= y < nodes.len() && x != y && #[trigger] nodes[x].matrix
            == #[trigger] nodes[y].matrix implies nodes[x].row != nodes[y].row by {
        assert(cidx[x] == nodes[x].matrix);
        assert(cidx[y] == nodes[y].matrix);
        assert(rows[x] == nodes[x].row);
        assert(rows[y] == nodes[y].row);
        let m = cidx[x]->0 as int;
        assert(ids[m]@[rows[x] as int] == x);
        assert(ids[m]@[rows[y] as int] == y);
    }
}

/// The voltage sources of one equation system take the rows after its node
/// rows, one each, in the order the sources are listed, and all below the
/// system's size.
pub proof fn lemma_source_rows(elems: Seq<ElementTopology>, t: Topology, e1: int, l1: int, e2: int, l2: int)
    requires
        analysis_ok(elems, t),
        0 <= e1 < elems.len(),
        0 <= l1 < elems[e1].voltage_sources@.len(),
        0 <= e2 < elems.len(),
        0 <= l2 < elems[e2].voltage_sources@.len(),
    ensures
        ({
            let v1 = t.voltage_sources@[vs_base(elems, e1) + l1];
            let m = v1.matrix as int;
            &&& 0 <= m < t.matrices@.len()
            &&& t.matrices@[m].node_count <= v1.row < t.matrices@[m].size
        }),
        ({
            let v1 = t.voltage_sources@[vs_base(elems, e1) + l1];
            let v2 = t.voltage_sources@[vs_base(elems, e2) + l2];
            (e1 < e2 || (e1 == e2 && l1 < l2)) && v1.matrix == v2.matrix ==> v1.row < v2.row
        }),
{
    let vs = t.voltage_sources@;
    let ms = t.matrices@;
    let i1 = vs_base(elems, e1) + l1;
    let i2 = vs_base(elems, e2) + l2;
    let v1 = vs[i1];
    let v2 = vs[i2];
    lemma_vs_base_mono(elems, e1, elems.len() as int);
    lemma_vs_base_mono(elems, e2, elems.len() as int);
    if e1 < e2 {
        lemma_vs_base_mono(elems, e1, e2);
    }
    let m = v1.matrix as int;
    let cidx = node_matrices(t.nodes@);
    let en = t.element_nodes@;
    let tv = elems[e1].voltage_sources@[l1];
    // the system of a source is that of one of its nodes, or 0
    if v1.n1 != 0 {
        assert(v1.n1 == term_node(en, e1, tv.0));
        assert(0 <= v1.n1 < t.nodes@.len()) by {
            if let Some(k) = tv.0 {
                assert(elems[e1].wf());
                assert(is_slot(elems, e1, k as int));
            }
        }
        assert(cidx[v1.n1 as int] is Some);
    } else if v1.n2 != 0 {
        assert(v1.n2 == term_node(en, e1, tv.1));
        assert(0 <= v1.n2 < t.nodes@.len()) by {
            if let Some(k) = tv.1 {
                assert(elems[e1].wf());
                assert(is_slot(elems, e1, k as int));
            }
        }
        assert(cidx[v1.n2 as int] is Some);
    }
    assert(0 <= m < ms.len());
    assert(matrix_sizes(ms)[m] == ms[m].size);
    assert(matrix_node_counts(ms)[m] == ms[m].node_count);
    lemma_count_in_mono(vs, i1 + 1, vs.len() as int, m);
    if (e1 < e2 || (e1 == e2 && l1 < l2)) && v1.matrix == v2.matrix {
        lemma_count_in_mono(vs, i1 + 1, i2, m);
    }
}

/// Reaching a node and stepping over a coupling to a node outside the
/// avoided set reaches that node too.
proof fn lemma_avoid_step(
    elems: Seq<ElementTopology>,
    en: Seq<Vec<usize>>,
    avoid: Set<int>,
    r: int,
    a: int,
    b: int,
)
    requires
        crate::topology::avoid_reach(elems, en, avoid, r, a),
        crate::topology::m_edge(elems, en, a, b),
        !avoid.contains(b),
    ensures
        crate::topology::avoid_reach(elems, en, avoid, r, b),
{
    assert forall|t: Set<int>| #[trigger] crate::topology::avoid_closed(elems, en, t, avoid) && t.contains(r) implies t.contains(b) by {
        assert(t.contains(a));
    }
}

/// Every element couples its terminals in both directions alike.
pub open spec fn symmetric_coupling(elems: Seq<ElementTopology>) -> bool {
    forall|e: int, a: int, b: int|
        0 <= e < elems.len() && 0 <= a < elems[e].node_count() && 0 <= b < elems[e].node_count()
            ==> #[trigger] elems[e].matrix_connection@[a]@[b] == elems[e].matrix_connection@[b]@[a]
}

/// When every element couples its terminals symmetrically, two nodes other
/// than ground that an element couples are in the same equation system.
pub proof fn lemma_coupled_nodes_share_system(elems: Seq<ElementTopology>, t: Topology, a: int, b: int)
    requires
        analysis_ok(elems, t),
        symmetric_coupling(elems),
        1 <= a < t.nodes@.len(),
        1 <= b < t.nodes@.len(),
        crate::topology::m_edge(elems, t.element_nodes@, a, b),
    ensures
        t.nodes@[a].matrix == t.nodes@[b].matrix,
{
    let en = t.element_nodes@;
    let cidx = node_matrices(t.nodes@);
    let count = t.nodes@.len();
    assert(cidx[a] == t.nodes@[a].matrix);
    assert(cidx[b] == t.nodes@[b].matrix);
    let da = cidx[a]->0 as int;
    let db = cidx[b]->0 as int;
    assert(crate::topology::has_rep(cidx, da)) by {
        assert(count > 1);
    }
    assert(crate::topology::has_rep(cidx, db)) by {
        assert(count > 1);
    }
    let ra = choose|r: int| #[trigger] crate::topology::is_rep(cidx, da, r);
    let rb = choose|r: int| #[trigger] crate::topology::is_rep(cidx, db, r);
    assert(crate::topology::avoid_reach(elems, en, crate::topology::earlier(cidx, da), ra, a));
    assert(crate::topology::avoid_reach(elems, en, crate::topology::earlier(cidx, db), rb, b));
    // the coupling backwards
    let (e, p1, k) = choose|e: int, p1: int, k: int|
        #![trigger en[e]@[p1], en[e]@[k]]
        crate::topology::mconn_at(elems, e, p1, k) && en[e]@[p1] == a && en[e]@[k] == b;
    assert(elems[e].matrix_connection@[k]@[p1] == elems[e].matrix_connection@[p1]@[k]);
    assert(crate::topology::mconn_at(elems, e, k, p1));
    assert(crate::topology::m_edge(elems, en, b, a));
    if da < db {
        assert(!crate::topology::earlier(cidx, da).contains(b));
        lemma_avoid_step(elems, en, crate::topology::earlier(cidx, da), ra, a, b);
        assert(cidx[b] == Some(da as usize));
    } else if db < da {
        assert(!crate::topology::earlier(cidx, db).contains(a));
        lemma_avoid_step(elems, en, crate::topology::earlier(cidx, db), rb, b, a);
        assert(cidx[a] == Some(db as usize));
    }
}


/// At the first terminal where two numberings that both meet `nets_ok`
/// could differ, the first cannot give the smaller node.
proof fn lemma_numbering_not_less(
    elems: Seq<ElementTopology>,
    en1: Seq<Vec<usize>>,
    i1: Seq<bool>,
    en2: Seq<Vec<usize>>,
    i2: Seq<bool>,
    e: int,
    k: int,
)
    requires
        nets_ok(elems, en1, i1),
        nets_ok(elems, en2, i2),
        is_slot(elems, e, k),
        forall|e2: int, k2: int|
            is_slot(elems, e2, k2) && (e2 < e || (e2 == e && k2 < k)) ==> #[trigger] en1[e2]@[k2]
                == en2[e2]@[k2],
    ensures
        !(en1[e]@[k] < en2[e]@[k]),
{
    let a = en1[e]@[k] as int;
    let b = en2[e]@[k] as int;
    let np = elems[e].posts@.len() as int;
    if a < b {
        if a == 0 {
            assert(!i1[a]);
            assert(k < np);
            assert(en1[e]@[k] == 0);
            assert(en2[e]@[k] == 0);
        } else {
            assert(used_earlier(elems, en2, e, k, a));
            let (e2, k2) = choose|e2: int, k2: int|
                is_slot(elems, e2, k2) && (e2 < e || (e2 == e && k2 < k)) && en2[e2]@[k2] == a;
            assert(en1[e2]@[k2] == en2[e2]@[k2]);
            assert(en1[e2]@[k2] == en1[e]@[k]);
            let np2 = elems[e2].posts@.len() as int;
            if k < np && k2 < np2 {
                assert(same_net(elems, elems[e].posts@[k], elems[e2].posts@[k2]));
                assert(en2[e]@[k] == en2[e2]@[k2]);
            } else if k >= np {
                assert(i1[en1[e]@[k] as int]);
                assert(i1[en1[e2]@[k2] as int] <==> k2 >= np2);
                assert(en1[e]@[k] != en1[e2]@[k2]);
            } else {
                assert(i1[en1[e2]@[k2] as int]);
                assert(!i1[en1[e]@[k] as int]);
            }
        }
    }
}

/// Two numberings that both meet `nets_ok` agree on every terminal before
/// flat position `t`.
proof fn lemma_numbering_agree_upto(
    elems: Seq<ElementTopology>,
    en1: Seq<Vec<usize>>,
    i1: Seq<bool>,
    en2: Seq<Vec<usize>>,
    i2: Seq<bool>,
    t: int,
)
    requires
        nets_ok(elems, en1, i1),
        nets_ok(elems, en2, i2),
        0 <= t <= total_slots(elems),
    ensures
        forall|e: int, k: int|
            is_slot(elems, e, k) && slot_base(elems, e) + k < t ==> #[trigger] en1[e]@[k] == en2[e]@[k],
    decreases t,
{
    if t > 0 {
        lemma_numbering_agree_upto(elems, en1, i1, en2, i2, t - 1);
        let (e, k) = lemma_slot_of(elems, t - 1);
        assert forall|e2: int, k2: int|
            is_slot(elems, e2, k2) && (e2 < e || (e2 == e && k2 < k)) implies #[trigger] en1[e2]@[k2]
                == en2[e2]@[k2] by {
            crate::topology::lemma_slot_index(elems, e2, k2, e, k);
        }
        lemma_numbering_not_less(elems, en1, i1, en2, i2, e, k);
        lemma_numbering_not_less(elems, en2, i2, en1, i1, e, k);
        assert forall|e2: int, k2: int|
            is_slot(elems, e2, k2) && slot_base(elems, e2) + k2 < t implies #[trigger] en1[e2]@[k2]
                == en2[e2]@[k2] by {
            crate::topology::lemma_slot_index(elems, e2, k2, e, k);
        }
    } else {
        assert forall|e2: int, k2: int|
            is_slot(elems, e2, k2) && slot_base(elems, e2) + k2 < t implies #[trigger] en1[e2]@[k2]
                == en2[e2]@[k2] by {
            crate::topology::lemma_slot_index(elems, e2, k2, e2, k2);
        }
    }
}

/// The node numbering is determined by the elements: any two numberings
/// that meet `nets_ok` give every terminal the same node and mark the same
/// nodes internal.
pub proof fn lemma_numbering_unique(
    elems: Seq<ElementTopology>,
    en1: Seq<Vec<usize>>,
    i1: Seq<bool>,
    en2: Seq<Vec<usize>>,
    i2: Seq<bool>,
)
    requires
        nets_ok(elems, en1, i1),
        nets_ok(elems, en2, i2),
    ensures
        forall|e: int| 0 <= e < elems.len() ==> (#[trigger] en1[e])@ == en2[e]@,
        i1 == i2,
{
    crate::topology::lemma_slot_base_mono(elems, 0, elems.len() as int);
    lemma_numbering_agree_upto(elems, en1, i1, en2, i2, total_slots(elems));
    assert forall|e: int, k: int| is_slot(elems, e, k) implies #[trigger] en1[e]@[k] == en2[e]@[k] by {
        crate::topology::lemma_slot_index(elems, e, k, e, k);
    }
    assert forall|e: int| 0 <= e < elems.len() implies (#[trigger] en1[e])@ == en2[e]@ by {
        assert forall|k: int| 0 <= k < en1[e]@.len() implies en1[e]@[k] == en2[e]@[k] by {
            assert(is_slot(elems, e, k));
        }
        assert(en1[e]@ =~= en2[e]@);
    }
    let c1 = i1.len() as int;
    let c2 = i2.len() as int;
    if c1 < c2 {
        assert(node_used(elems, en2, c1));
        let (e, k) = choose|e: int, k: int| is_slot(elems, e, k) && en2[e]@[k] == c1;
        assert(en1[e]@[k] == en2[e]@[k]);
    }
    if c2 < c1 {
        assert(node_used(elems, en1, c2));
        let (e, k) = choose|e: int, k: int| is_slot(elems, e, k) && en1[e]@[k] == c2;
        assert(en1[e]@[k] == en2[e]@[k]);
    }
    assert forall|n: int| 0 <= n < c1 implies i1[n] == i2[n] by {
        if n >= 1 {
            assert(node_used(elems, en1, n));
            let (e, k) = choose|e: int, k: int| is_slot(elems, e, k) && en1[e]@[k] == n;
            assert(en1[e]@[k] == en2[e]@[k]);
            assert(i1[en1[e]@[k] as int] <==> k >= elems[e].posts@.len());
            assert(i2[en2[e]@[k] as int] <==> k >= elems[e].posts@.len());
        }
    }
    assert(i1 =~= i2);
}

/// Two strictly increasing sequences with the same members are equal.
proof fn lemma_sorted_same(s1: Seq<usize>, s2: Seq<usize>)
    requires
        forall|j1: int, j2: int| 0 <= j1 < j2 < s1.len() ==> #[trigger] s1[j1] < #[trigger] s1[j2],
        forall|j1: int, j2: int| 0 <= j1 < j2 < s2.len() ==> #[trigger] s2[j1] < #[trigger] s2[j2],
        forall|v: usize| s1.contains(v) <==> s2.contains(v),
    ensures
        s1 == s2,
    decreases s1.len(),
{
    if s1.len() == 0 {
        if s2.len() > 0 {
            assert(s2.contains(s2[0]));
        }
        assert(s1 =~= s2);
    } else {
        assert(s1.contains(s1[0]));
        assert(s2.len() > 0);
        assert(s2.contains(s2[0]));
        let a = s1[0];
        let b = s2[0];
        let ja = choose|j: int| 0 <= j < s2.len() && s2[j] == a;
        let jb = choose|j: int| 0 <= j < s1.len() && s1[j] == b;
        if ja > 0 {
            assert(s2[0] < s2[ja]);
        }
        if jb > 0 {
            assert(s1[0] < s1[jb]);
        }
        assert(a == b);
        let t1 = s1.drop_first();
        let t2 = s2.drop_first();
        assert forall|v: usize| t1.contains(v) <==> t2.contains(v) by {
            if t1.contains(v) {
                let i = choose|i: int| 0 <= i < t1.len() && t1[i] == v;
                assert(s1[0] < s1[i + 1]);
                assert(s1.contains(v));
                let k = choose|k: int| 0 <= k < s2.len() && s2[k] == v;
                assert(k != 0);
                assert(t2[k - 1] == v);
            }
            if t2.contains(v) {
                let i = choose|i: int| 0 <= i < t2.len() && t2[i] == v;
                assert(s2[0] < s2[i + 1]);
                assert(s2.contains(v));
                let k = choose|k: int| 0 <= k < s1.len() && s1[k] == v;
                assert(k != 0);
                assert(t1[k - 1] == v);
            }
        }
        assert forall|j1: int, j2: int| 0 <= j1 < j2 < t1.len() implies #[trigger] t1[j1] < #[trigger] t1[j2] by {
            assert(s1[j1 + 1] < s1[j2 + 1]);
        }
        assert forall|j1: int, j2: int| 0 <= j1 < j2 < t2.len() implies #[trigger] t2[j1] < #[trigger] t2[j2] by {
            assert(s2[j1 + 1] < s2[j2 + 1]);
        }
        lemma_sorted_same(t1, t2);
        assert(s1 =~= seq![a] + t1);
        assert(s2 =~= seq![b] + t2);
    }
}

/// Rows and node lists are determined by the systems: two that meet
/// `rows_ok` for the same systems are equal.
pub proof fn lemma_rows_unique(
    cidx: Seq<Option<usize>>,
    r1: Seq<usize>,
    i1: Seq<Vec<usize>>,
    r2: Seq<usize>,
    i2: Seq<Vec<usize>>,
    nclos: int,
)
    requires
        rows_ok(cidx, r1, i1, nclos),
        rows_ok(cidx, r2, i2, nclos),
        nclos <= usize::MAX,
        forall|x: int| 1 <= x < cidx.len() ==> (#[trigger] cidx[x]) is Some && cidx[x]->0 < nclos,
    ensures
        r1 == r2,
        forall|m: int| 0 <= m < nclos ==> (#[trigger] i1[m])@ == i2[m]@,
{
    let count = cidx.len() as int;
    assert forall|m: int| 0 <= m < nclos implies (#[trigger] i1[m])@ == i2[m]@ by {
        let s1 = i1[m]@;
        let s2 = i2[m]@;
        assert forall|v: usize| s1.contains(v) <==> s2.contains(v) by {
            if s1.contains(v) {
                let j = choose|j: int| 0 <= j < s1.len() && s1[j] == v;
                assert(1 <= i1[m]@[j] < count);
                let x = v as int;
                assert(cidx[x] == Some(m as usize));
                assert(cidx[x]->0 as int == m);
                assert(r2[x] < i2[m]@.len() && i2[m]@[r2[x] as int] == v);
            }
            if s2.contains(v) {
                let j = choose|j: int| 0 <= j < s2.len() && s2[j] == v;
                assert(1 <= i2[m]@[j] < count);
                let x = v as int;
                assert(cidx[x] == Some(m as usize));
                assert(cidx[x]->0 as int == m);
                assert(r1[x] < i1[m]@.len() && i1[m]@[r1[x] as int] == v);
            }
        }
        lemma_sorted_same(s1, s2);
    }
    assert forall|x: int| 0 <= x < count implies r1[x] == r2[x] by {
        if x >= 1 {
            let m = cidx[x]->0 as int;
            assert(i1[m]@ == i2[m]@);
            let a = r1[x] as int;
            let b = r2[x] as int;
            assert(i1[m]@[a] == x);
            assert(i2[m]@[b] == x);
            if a < b {
                assert(i2[m]@[a] < i2[m]@[b]);
            }
            if b < a {
                assert(i2[m]@[b] < i2[m]@[a]);
            }
        }
    }
    assert(r1 =~= r2);
}

/// The flat position `i` of a voltage source belongs to element `r.0`,
/// source `r.1`.
proof fn lemma_vs_of_upto(elems: Seq<ElementTopology>, i: int, n: int) -> (r: (int, int))
    requires
        0 <= n <= elems.len(),
        0 <= i < vs_base(elems, n),
    ensures
        0 <= r.0 < n,
        0 <= r.1 < elems[r.0].voltage_sources@.len(),
        vs_base(elems, r.0) + r.1 == i,
    decreases n,
{
    if i >= vs_base(elems, n - 1) {
        (n - 1, i - vs_base(elems, n - 1))
    } else {
        lemma_vs_of_upto(elems, i, n - 1)
    }
}

proof fn lemma_sources_agree_upto(
    elems: Seq<ElementTopology>,
    en1: Seq<Vec<usize>>,
    en2: Seq<Vec<usize>>,
    cidx: Seq<Option<usize>>,
    ncounts: Seq<usize>,
    v1: Seq<VoltageSource>,
    s1: Seq<usize>,
    v2: Seq<VoltageSource>,
    s2: Seq<usize>,
    i: int,
)
    requires
        en1.len() == elems.len(),
        en2.len() == elems.len(),
        forall|e: int| 0 <= e < elems.len() ==> (#[trigger] en1[e])@ == en2[e]@,
        sources_ok(elems, en1, cidx, ncounts, v1, s1),
        sources_ok(elems, en2, cidx, ncounts, v2, s2),
        0 <= i <= total_vs(elems),
    ensures
        forall|j: int| 0 <= j < i ==> v1[j] == v2[j],
    decreases i,
{
    if i > 0 {
        lemma_sources_agree_upto(elems, en1, en2, cidx, ncounts, v1, s1, v2, s2, i - 1);
        let (e, l) = lemma_vs_of_upto(elems, i - 1, elems.len() as int);
        assert(en1[e]@ == en2[e]@);
        let a = v1[vs_base(elems, e) + l];
        let b = v2[vs_base(elems, e) + l];
        assert(a.n1 == b.n1 && a.n2 == b.n2);
        assert(a.matrix == b.matrix);
        lemma_count_in_prefix(v1, v2, i - 1, a.matrix as int);
        assert(a.row == b.row);
    }
}

/// Voltage sources and system sizes are determined by the nodes, the
/// systems and the node counts of the systems.
pub proof fn lemma_sources_unique(
    elems: Seq<ElementTopology>,
    en1: Seq<Vec<usize>>,
    en2: Seq<Vec<usize>>,
    cidx: Seq<Option<usize>>,
    ncounts: Seq<usize>,
    v1: Seq<VoltageSource>,
    s1: Seq<usize>,
    v2: Seq<VoltageSource>,
    s2: Seq<usize>,
)
    requires
        en1.len() == elems.len(),
        en2.len() == elems.len(),
        forall|e: int| 0 <= e < elems.len() ==> (#[trigger] en1[e])@ == en2[e]@,
        sources_ok(elems, en1, cidx, ncounts, v1, s1),
        sources_ok(elems, en2, cidx, ncounts, v2, s2),
    ensures
        v1 == v2,
        s1 == s2,
{
    lemma_vs_base_nonneg(elems, elems.len() as int);
    lemma_sources_agree_upto(elems, en1, en2, cidx, ncounts, v1, s1, v2, s2, total_vs(elems));
    assert(v1 =~= v2);
    assert forall|m: int| 0 <= m < ncounts.len() implies s1[m] == s2[m] by {
        assert(s1[m] == ncounts[m] + count_in(v1, v1.len() as int, m));
        assert(s2[m] == ncounts[m] + count_in(v2, v2.len() as int, m));
    }
    assert(s1 =~= s2);
}

proof fn lemma_ground_tied_same(
    elems: Seq<ElementTopology>,
    en1: Seq<Vec<usize>>,
    en2: Seq<Vec<usize>>,
    n: int,
)
    requires
        en1.len() == elems.len(),
        en2.len() == elems.len(),
        forall|e: int| 0 <= e < elems.len() ==> (#[trigger] en1[e])@ == en2[e]@,
    ensures
        crate::topology::ground_tied(elems, en1, n) == crate::topology::ground_tied(elems, en2, n),
{
    if crate::topology::ground_tied(elems, en1, n) && n != 0 {
        let (e, j) = choose|e: int, j: int|
            0 <= e < elems.len() && 0 <= j < elems[e].posts@.len() && elems[e].ground_connection@[j]
                && en1[e]@[j] == n;
        assert(en1[e]@ == en2[e]@);
        assert(en2[e]@[j] == n);
    }
    if crate::topology::ground_tied(elems, en2, n) && n != 0 {
        let (e, j) = choose|e: int, j: int|
            0 <= e < elems.len() && 0 <= j < elems[e].posts@.len() && elems[e].ground_connection@[j]
                && en2[e]@[j] == n;
        assert(en1[e]@ == en2[e]@);
        assert(en1[e]@[j] == n);
    }
}

proof fn lemma_conn_reach_same(
    elems: Seq<ElementTopology>,
    en1: Seq<Vec<usize>>,
    en2: Seq<Vec<usize>>,
    src: Set<int>,
    n: int,
)
    requires
        en1.len() == elems.len(),
        en2.len() == elems.len(),
        forall|e: int| 0 <= e < elems.len() ==> (#[trigger] en1[e])@ == en2[e]@,
    ensures
        crate::topology::conn_reach(elems, en1, src, n) == crate::topology::conn_reach(elems, en2, src, n),
{
    assert forall|a: int, b: int| #[trigger] crate::topology::conn_edge(elems, en1, a, b)
        == crate::topology::conn_edge(elems, en2, a, b) by {
        if crate::topology::conn_edge(elems, en1, a, b) {
            let (e, p1, k) = choose|e: int, p1: int, k: int|
                crate::topology::conn_at(elems, en1, e, p1, k) && en1[e]@[p1] == a && en1[e]@[k] == b;
            assert(en1[e]@ == en2[e]@);
            assert(crate::topology::conn_at(elems, en2, e, p1, k));
            assert(en2[e]@[p1] == a && en2[e]@[k] == b);
        }
        if crate::topology::conn_edge(elems, en2, a, b) {
            let (e, p1, k) = choose|e: int, p1: int, k: int|
                crate::topology::conn_at(elems, en2, e, p1, k) && en2[e]@[p1] == a && en2[e]@[k] == b;
            assert(en1[e]@ == en2[e]@);
            assert(crate::topology::conn_at(elems, en1, e, p1, k));
            assert(en1[e]@[p1] == a && en1[e]@[k] == b);
        }
    }
    assert forall|t: Set<int>| #[trigger] crate::topology::conn_closed(elems, en1, t)
        == crate::topology::conn_closed(elems, en2, t) by {
        if crate::topology::conn_closed(elems, en1, t) {
            assert forall|a: int, b: int| #[trigger] t.contains(a) && #[trigger] crate::topology::conn_edge(
                elems,
                en2,
                a,
                b,
            ) implies t.contains(b) by {
                assert(crate::topology::conn_edge(elems, en1, a, b));
            }
        }
        if crate::topology::conn_closed(elems, en2, t) {
            assert forall|a: int, b: int| #[trigger] t.contains(a) && #[trigger] crate::topology::conn_edge(
                elems,
                en1,
                a,
                b,
            ) implies t.contains(b) by {
                assert(crate::topology::conn_edge(elems, en2, a, b));
            }
        }
    }
    if crate::topology::conn_reach(elems, en1, src, n) {
        assert forall|t: Set<int>| #[trigger] crate::topology::conn_closed(elems, en2, t) && src.subset_of(t)
            implies t.contains(n) by {
            assert(crate::topology::conn_closed(elems, en1, t));
        }
    }
    if crate::topology::conn_reach(elems, en2, src, n) {
        assert forall|t: Set<int>| #[trigger] crate::topology::conn_closed(elems, en1, t) && src.subset_of(t)
            implies t.contains(n) by {
            assert(crate::topology::conn_closed(elems, en2, t));
        }
    }
}

proof fn lemma_unconnected_agree_upto(
    elems: Seq<ElementTopology>,
    en1: Seq<Vec<usize>>,
    en2: Seq<Vec<usize>>,
    internal: Seq<bool>,
    u1: Seq<usize>,
    u2: Seq<usize>,
    n: int,
)
    requires
        en1.len() == elems.len(),
        en2.len() == elems.len(),
        forall|e: int| 0 <= e < elems.len() ==> (#[trigger] en1[e])@ == en2[e]@,
        crate::topology::unconnected_ok(elems, en1, internal, u1),
        crate::topology::unconnected_ok(elems, en2, internal, u2),
        internal.len() <= usize::MAX,
        0 <= n <= internal.len(),
    ensures
        forall|y: int| 0 <= y < n ==> #[trigger] u1.contains(y as usize) == u2.contains(y as usize),
    decreases n,
{
    if n > 0 {
        lemma_unconnected_agree_upto(elems, en1, en2, internal, u1, u2, n - 1);
        let x = n - 1;
        if x >= 1 && !internal[x] {
            let s1 = crate::topology::sources_below(elems, en1, u1, x);
            let s2 = crate::topology::sources_below(elems, en2, u2, x);
            assert forall|y: int| #[trigger] s1.contains(y) == s2.contains(y) by {
                lemma_ground_tied_same(elems, en1, en2, y);
                if 0 <= y < x {
                    assert(u1.contains(y as usize) == u2.contains(y as usize));
                }
            }
            assert(s1 =~= s2);
            lemma_conn_reach_same(elems, en1, en2, s1, x);
            assert(u1.contains(x as usize) == u2.contains(x as usize));
        } else {
            if u1.contains(x as usize) {
                let i = choose|i: int| 0 <= i < u1.len() && u1[i] == x as usize;
                assert(1 <= u1[i] && !internal[u1[i] as int]);
            }
            if u2.contains(x as usize) {
                let i = choose|i: int| 0 <= i < u2.len() && u2[i] == x as usize;
                assert(1 <= u2[i] && !internal[u2[i] as int]);
            }
        }
    }
}

/// The unconnected nodes are determined by the nodes of the terminals.
pub proof fn lemma_unconnected_unique(
    elems: Seq<ElementTopology>,
    en1: Seq<Vec<usize>>,
    en2: Seq<Vec<usize>>,
    internal: Seq<bool>,
    u1: Seq<usize>,
    u2: Seq<usize>,
)
    requires
        en1.len() == elems.len(),
        en2.len() == elems.len(),
        forall|e: int| 0 <= e < elems.len() ==> (#[trigger] en1[e])@ == en2[e]@,
        crate::topology::unconnected_ok(elems, en1, internal, u1),
        crate::topology::unconnected_ok(elems, en2, internal, u2),
        internal.len() <= usize::MAX,
    ensures
        u1 == u2,
{
    lemma_unconnected_agree_upto(elems, en1, en2, internal, u1, u2, internal.len() as int);
    assert forall|v: usize| u1.contains(v) <==> u2.contains(v) by {
        let y = v as int;
        if y >= internal.len() {
            if u1.contains(v) {
                let i = choose|i: int| 0 <= i < u1.len() && u1[i] == v;
                assert(u1[i] < internal.len());
            }
            if u2.contains(v) {
                let i = choose|i: int| 0 <= i < u2.len() && u2[i] == v;
                assert(u2[i] < internal.len());
            }
        } else {
            assert(u1.contains(y as usize) == u2.contains(y as usize));
        }
    }
    lemma_sorted_same(u1, u2);
}

/// Analysing the same elements twice gives the same node numbering, the
/// same equation systems, rows and voltage sources: every terminal gets the
/// same node, there are as many nodes, the same nodes are internal, every
/// node is in the same system at the same row with the same links, there
/// are as many systems with the same nodes and sizes, and the voltage
/// sources and the unconnected nodes are the same.
pub proof fn lemma_analysis_repeats(elems: Seq<ElementTopology>, t1: Topology, t2: Topology)
    requires
        analysis_ok(elems, t1),
        analysis_ok(elems, t2),
    ensures
        forall|e: int| 0 <= e < elems.len() ==> (#[trigger] t1.element_nodes@[e])@ == t2.element_nodes@[e]@,
        t1.nodes@.len() == t2.nodes@.len(),
        forall|n: int| 0 <= n < t1.nodes@.len() ==> (#[trigger] t1.nodes@[n]).internal == t2.nodes@[n].internal,
        forall|n: int| 0 <= n < t1.nodes@.len() ==> (#[trigger] t1.nodes@[n]).matrix == t2.nodes@[n].matrix,
        forall|n: int| 0 <= n < t1.nodes@.len() ==> (#[trigger] t1.nodes@[n]).row == t2.nodes@[n].row,
        t1.matrices@.len() == t2.matrices@.len(),
        forall|m: int| 0 <= m < t1.matrices@.len() ==> (#[trigger] t1.matrices@[m]).node_ids@ == t2.matrices@[m].node_ids@
            && t1.matrices@[m].node_count == t2.matrices@[m].node_count && t1.matrices@[m].size == t2.matrices@[m].size,
        t1.voltage_sources@ == t2.voltage_sources@,
        t1.nonlinear == t2.nonlinear,
        t1.unconnected@ == t2.unconnected@,
        forall|n: int| 0 <= n < t1.nodes@.len() ==> (#[trigger] t1.nodes@[n]).links@ == t2.nodes@[n].links@,
{
    lemma_numbering_unique(
        elems,
        t1.element_nodes@,
        node_internal(t1.nodes@),
        t2.element_nodes@,
        node_internal(t2.nodes@),
    );
    assert forall|n: int| 0 <= n < t1.nodes@.len() implies (#[trigger] t1.nodes@[n]).internal
        == t2.nodes@[n].internal by {
        assert(node_internal(t1.nodes@)[n] == node_internal(t2.nodes@)[n]);
    }
    crate::topology::lemma_systems_unique(
        elems,
        t1.element_nodes@,
        t2.element_nodes@,
        node_matrices(t1.nodes@),
        t1.matrices@.len() as int,
        node_matrices(t2.nodes@),
        t2.matrices@.len() as int,
    );
    assert forall|n: int| 0 <= n < t1.nodes@.len() implies (#[trigger] t1.nodes@[n]).matrix
        == t2.nodes@[n].matrix by {
        assert(node_matrices(t1.nodes@)[n] == node_matrices(t2.nodes@)[n]);
    }
    let cidx = node_matrices(t1.nodes@);
    let ms1 = t1.matrices@;
    let ms2 = t2.matrices@;
    assert(t1.matrices.len() == ms1.len());
    lemma_rows_unique(cidx, node_rows(t1.nodes@), matrix_ids(ms1), node_rows(t2.nodes@), matrix_ids(ms2), ms1.len() as int);
    assert forall|n: int| 0 <= n < t1.nodes@.len() implies (#[trigger] t1.nodes@[n]).row == t2.nodes@[n].row by {
        assert(node_rows(t1.nodes@)[n] == node_rows(t2.nodes@)[n]);
    }
    assert forall|m: int| 0 <= m < ms1.len() implies (#[trigger] ms1[m]).node_ids@ == ms2[m].node_ids@
        && ms1[m].node_count == ms2[m].node_count by {
        assert(matrix_ids(ms1)[m]@ == matrix_ids(ms2)[m]@);
    }
    assert(matrix_node_counts(ms1) =~= matrix_node_counts(ms2));
    lemma_sources_unique(
        elems,
        t1.element_nodes@,
        t2.element_nodes@,
        cidx,
        matrix_node_counts(ms1),
        t1.voltage_sources@,
        matrix_sizes(ms1),
        t2.voltage_sources@,
        matrix_sizes(ms2),
    );
    assert forall|m: int| 0 <= m < ms1.len() implies (#[trigger] ms1[m]).size == ms2[m].size by {
        assert(matrix_sizes(ms1)[m] == matrix_sizes(ms2)[m]);
    }
    assert(node_internal(t1.nodes@) == node_internal(t2.nodes@));
    assert(t1.nodes.len() == t1.nodes@.len());
    lemma_unconnected_unique(
        elems,
        t1.element_nodes@,
        t2.element_nodes@,
        node_internal(t1.nodes@),
        t1.unconnected@,
        t2.unconnected@,
    );
    crate::topology::lemma_links_unique(
        elems,
        t1.element_nodes@,
        t2.element_nodes@,
        t1.nodes@.len() as int,
        node_links(t1.nodes@),
        node_links(t2.nodes@),
    );
    assert forall|n: int| 0 <= n < t1.nodes@.len() implies (#[trigger] t1.nodes@[n]).links@
        == t2.nodes@[n].links@ by {
        assert(node_links(t1.nodes@)[n]@ == node_links(t2.nodes@)[n]@);
    }
}

} // verus!
