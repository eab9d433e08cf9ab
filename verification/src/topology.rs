//! Circuit topology: nodes, their links to element terminals, voltage
//! source rows, unconnected nodes and independent equation systems.
use vstd::prelude::*;
use crate::union_find::{Point, UnionFind};
use crate::netlist::ElementTopology;
use crate::netlist;
use crate::numbering;
use std::collections::VecDeque;

verus! {

/// Index of element `e`'s first terminal among all terminals of `elems`,
/// counted element by element.
pub open spec fn slot_base(elems: Seq<ElementTopology>, e: int) -> int
    decreases e,
{
    if e <= 0 {
        0
    } else {
        slot_base(elems, e - 1) + elems[e - 1].node_count()
    }
}

/// Number of terminals of all elements.
pub open spec fn total_slots(elems: Seq<ElementTopology>) -> int {
    slot_base(elems, elems.len() as int)
}

/// Terminal bases grow with the element index.
pub proof fn lemma_slot_base_mono(elems: Seq<ElementTopology>, e1: int, e2: int)
    requires
        0 <= e1 <= e2 <= elems.len(),
    ensures
        slot_base(elems, e1) <= slot_base(elems, e2),
        e1 < e2 ==> slot_base(elems, e1) + elems[e1].node_count() <= slot_base(elems, e2),
        slot_base(elems, e1) >= 0,
    decreases e2 - e1,
{
    if e1 < e2 {
        lemma_slot_base_mono(elems, e1, e2 - 1);
    } else {
        lemma_slot_base_nonneg(elems, e1);
    }
}

proof fn lemma_slot_base_nonneg(elems: Seq<ElementTopology>, e: int)
    ensures
        slot_base(elems, e) >= 0,
    decreases e,
{
    if e > 0 {
        lemma_slot_base_nonneg(elems, e - 1);
    }
}

/// Terminal `k` of element `e` is a real terminal.
pub open spec fn is_slot(elems: Seq<ElementTopology>, e: int, k: int) -> bool {
    0 <= e < elems.len() && 0 <= k < elems[e].node_count()
}

/// Flat terminal positions are in range, distinct, and in terminal order.
pub proof fn lemma_slot_index(elems: Seq<ElementTopology>, e1: int, k1: int, e2: int, k2: int)
    requires
        is_slot(elems, e1, k1),
        is_slot(elems, e2, k2),
    ensures
        0 <= slot_base(elems, e1) + k1 < total_slots(elems),
        (slot_base(elems, e1) + k1 == slot_base(elems, e2) + k2) <==> (e1 == e2 && k1 == k2),
        (slot_base(elems, e1) + k1 < slot_base(elems, e2) + k2) <==> (e1 < e2 || (e1 == e2 && k1
            < k2)),
{
    lemma_slot_base_mono(elems, e1, elems.len() as int);
    if e1 < e2 {
        lemma_slot_base_mono(elems, e1, e2);
    } else if e2 < e1 {
        lemma_slot_base_mono(elems, e2, e1);
    }
}

/// Net key of a terminal: the representative of a post's point, or none
/// for an internal node.
pub open spec fn slot_key(elems: Seq<ElementTopology>, m: Map<Point, Point>, e: int, k: int) -> Option<
    Point,
> {
    if k < elems[e].posts@.len() {
        Some(m[elems[e].posts@[k]])
    } else {
        None
    }
}

/// The net key of every terminal, element by element.
pub(crate) fn collect_keys(elems: &Vec<ElementTopology>, uf: &mut UnionFind) -> (keys: Vec<Option<Point>>)
    requires
        old(uf).wf(),
        netlist::posts_recorded(elems@, old(uf)@),
        total_slots(elems@) < usize::MAX,
    ensures
        final(uf).wf(),
        final(uf)@ == old(uf)@,
        keys@.len() == total_slots(elems@),
        forall|e: int, k: int|
            #![trigger slot_key(elems@, old(uf)@, e, k)]
            is_slot(elems@, e, k) ==> keys@[slot_base(elems@, e) + k] == slot_key(
                elems@,
                old(uf)@,
                e,
                k,
            ),
{
    let ghost es = elems@;
    let ghost m = uf@;
    let mut keys: Vec<Option<Point>> = Vec::new();
    let n = elems.len();
    let mut e: usize = 0;
    while e < n
        invariant
            es == elems@,
            n == es.len(),
            e <= n,
            uf.wf(),
            uf@ == m,
            netlist::posts_recorded(es, m),
            total_slots(es) < usize::MAX,
            keys@.len() == slot_base(es, e as int),
            forall|e2: int, k: int|
                #![trigger slot_key(es, m, e2, k)]
                is_slot(es, e2, k) && e2 < e ==> keys@[slot_base(es, e2) + k] == slot_key(es, m, e2, k),
        decreases n - e,
    {
        let np = elems[e].posts.len();
        let ni = elems[e].internal_nodes;
        proof {
            lemma_slot_base_mono(es, e as int + 1, n as int);
        }
        let ghost keys0 = keys@;
        let mut j: usize = 0;
        while j < np
            invariant
                es == elems@,
                n == es.len(),
                e < n,
                np == es[e as int].posts@.len(),
                j <= np,
                uf.wf(),
                uf@ == m,
                netlist::posts_recorded(es, m),
                keys@.len() == slot_base(es, e as int) + j,
                keys@.take(keys0.len() as int) == keys0,
                keys0.len() == slot_base(es, e as int),
                forall|k: int| 0 <= k < j ==> keys@[slot_base(es, e as int) + k] == slot_key(es, m, e as int, k),
                slot_base(es, e as int) + es[e as int].node_count() <= total_slots(es),
                total_slots(es) < usize::MAX,
            decreases np - j,
        {
            let p = elems[e].posts[j];
            let r = uf.find(p);
            keys.push(Some(r));
            proof {
                assert(keys@.take(keys0.len() as int) =~= keys0) by {
                    assert(forall|i: int| 0 <= i < keys0.len() ==> keys@[i] == keys@.drop_last()[i]);
                }
            }
            j = j + 1;
        }
        let mut j: usize = 0;
        while j < ni
            invariant
                es == elems@,
                n == es.len(),
                e < n,
                np == es[e as int].posts@.len(),
                ni == es[e as int].internal_nodes,
                j <= ni,
                keys@.len() == slot_base(es, e as int) + np + j,
                keys@.take(keys0.len() as int) == keys0,
                keys0.len() == slot_base(es, e as int),
                forall|k: int| 0 <= k < np + j ==> keys@[slot_base(es, e as int) + k] == slot_key(es, m, e as int, k),
                slot_base(es, e as int) + es[e as int].node_count() <= total_slots(es),
                total_slots(es) < usize::MAX,
            decreases ni - j,
        {
            keys.push(None);
            proof {
                assert(keys@.take(keys0.len() as int) =~= keys0) by {
                    assert(forall|i: int| 0 <= i < keys0.len() ==> keys@[i] == keys@.drop_last()[i]);
                }
            }
            j = j + 1;
        }
        proof {
            assert forall|e2: int, k: int|
                #![trigger slot_key(es, m, e2, k)]
                is_slot(es, e2, k) && e2 < e + 1 implies keys@[slot_base(es, e2) + k] == slot_key(es, m, e2, k) by {
                if e2 < e {
                    lemma_slot_base_mono(es, e2, e as int);
                    assert(keys@[slot_base(es, e2) + k] == keys0[slot_base(es, e2) + k]) by {
                        assert(keys@.take(keys0.len() as int)[slot_base(es, e2) + k] == keys0[slot_base(es, e2) + k]);
                    }
                }
            }
        }
        e = e + 1;
    }
    keys
}

/// One terminal of one element that sits on a node.
#[derive(Clone, Copy, Debug)]
pub struct NodeLink {
    /// Index of the element.
    pub elm: usize,
    /// Terminal of the element: a post, or an internal node after the posts.
    pub post: usize,
}

/// Terminal `(e, k)` comes before terminal `(e2, k2)`, element by element.
pub open spec fn link_before(a: NodeLink, b: NodeLink) -> bool {
    a.elm < b.elm || (a.elm == b.elm && a.post < b.post)
}

/// Rows `elem_nodes[e][k]` hold the flat numbering of terminal `(e, k)`.
pub open spec fn rows_of(elems: Seq<ElementTopology>, flat: Seq<usize>, elem_nodes: Seq<Vec<usize>>) -> bool {
    &&& elem_nodes.len() == elems.len()
    &&& forall|e: int| 0 <= e < elems.len() ==> (#[trigger] elem_nodes[e])@.len() == elems[e].node_count()
    &&& forall|e: int, k: int|
        is_slot(elems, e, k) ==> (#[trigger] elem_nodes[e]@[k]) == flat[slot_base(elems, e) + k]
}

/// Splits the flat numbering into one row per element.
pub(crate) fn split_rows(elems: &Vec<ElementTopology>, flat: &Vec<usize>) -> (rows: Vec<Vec<usize>>)
    requires
        flat@.len() == total_slots(elems@),
    ensures
        rows_of(elems@, flat@, rows@),
{
    let ghost es = elems@;
    let n = elems.len();
    let fl = flat.len();
    let mut rows: Vec<Vec<usize>> = Vec::new();
    let mut t: usize = 0;
    let mut e: usize = 0;
    while e < n
        invariant
            es == elems@,
            n == es.len(),
            e <= n,
            flat@.len() == total_slots(es),
            fl == flat@.len(),
            t == slot_base(es, e as int),
            rows@.len() == e,
            forall|e2: int| 0 <= e2 < e ==> (#[trigger] rows@[e2])@.len() == es[e2].node_count(),
            forall|e2: int, k: int|
                is_slot(es, e2, k) && e2 < e ==> (#[trigger] rows@[e2]@[k]) == flat@[slot_base(es, e2) + k],
        decreases n - e,
    {
        proof {
            lemma_slot_base_mono(es, e as int, n as int);
            lemma_slot_base_mono(es, e as int + 1, n as int);
            assert(slot_base(es, e as int + 1) == slot_base(es, e as int) + es[e as int].node_count());
            assert(flat@.len() == fl);
        }
        let nc = elems[e].posts.len() + elems[e].internal_nodes;
        let mut row: Vec<usize> = Vec::new();
        let mut k: usize = 0;
        while k < nc
            invariant
                es == elems@,
                e < n,
                n == es.len(),
                nc == es[e as int].node_count(),
                k <= nc,
                t == slot_base(es, e as int),
                t + nc <= total_slots(es),
                flat@.len() == total_slots(es),
                fl == flat@.len(),
                row@.len() == k,
                forall|k2: int| 0 <= k2 < k ==> row@[k2] == flat@[t + k2],
            decreases nc - k,
        {
            row.push(flat[t + k]);
            k = k + 1;
        }
        rows.push(row);
        t = t + nc;
        e = e + 1;
    }
    rows
}

/// Links of every node: the terminals numbered with it, in terminal order.
pub open spec fn links_of(
    elems: Seq<ElementTopology>,
    elem_nodes: Seq<Vec<usize>>,
    count: int,
    links: Seq<Vec<NodeLink>>,
) -> bool {
    &&& links.len() == count
    &&& forall|n: int, i: int|
        #![trigger links[n]@[i]]
        0 <= n < count && 0 <= i < links[n]@.len() ==> is_slot(
            elems,
            links[n]@[i].elm as int,
            links[n]@[i].post as int,
        ) && elem_nodes[links[n]@[i].elm as int]@[links[n]@[i].post as int] == n
    &&& forall|n: int, i1: int, i2: int|
        #![trigger links[n]@[i1], links[n]@[i2]]
        0 <= n < count && 0 <= i1 < i2 < links[n]@.len() ==> link_before(
            links[n]@[i1],
            links[n]@[i2],
        )
    &&& forall|e: int, k: int|
        is_slot(elems, e, k) ==> #[trigger] linked(links[elem_nodes[e]@[k] as int]@, e, k)
}

/// Terminal `(e, k)` appears among `ls`.
pub open spec fn linked(ls: Seq<NodeLink>, e: int, k: int) -> bool {
    exists|i: int| 0 <= i < ls.len() && ls[i].elm == e && ls[i].post == k
}

/// Collects the links of every node.
pub(crate) fn collect_links(elems: &Vec<ElementTopology>, elem_nodes: &Vec<Vec<usize>>, count: usize) -> (links: Vec<Vec<NodeLink>>)
    requires
        elem_nodes@.len() == elems@.len(),
        forall|e: int| 0 <= e < elems@.len() ==> (#[trigger] elem_nodes@[e])@.len() == elems@[e].node_count(),
        forall|e: int, k: int| is_slot(elems@, e, k) ==> (#[trigger] elem_nodes@[e]@[k]) < count,
    ensures
        links_of(elems@, elem_nodes@, count as int, links@),
{
    let ghost es = elems@;
    let ghost en = elem_nodes@;
    let mut links: Vec<Vec<NodeLink>> = Vec::new();
    let mut i: usize = 0;
    while i < count
        invariant
            links@.len() == i,
            i <= count,
            forall|n: int| 0 <= n < i ==> (#[trigger] links@[n])@.len() == 0,
        decreases count - i,
    {
        links.push(Vec::new());
        i = i + 1;
    }
    let n = elems.len();
    let mut e: usize = 0;
    while e < n
        invariant
            es == elems@,
            en == elem_nodes@,
            n == es.len(),
            e <= n,
            en.len() == es.len(),
            forall|e2: int| 0 <= e2 < es.len() ==> (#[trigger] en[e2])@.len() == es[e2].node_count(),
            forall|e2: int, k: int| is_slot(es, e2, k) ==> (#[trigger] en[e2]@[k]) < count,
            links@.len() == count,
            forall|nn: int, i: int|
                #![trigger links@[nn]@[i]]
                0 <= nn < count && 0 <= i < links@[nn]@.len() ==> is_slot(
                    es,
                    links@[nn]@[i].elm as int,
                    links@[nn]@[i].post as int,
                ) && en[links@[nn]@[i].elm as int]@[links@[nn]@[i].post as int] == nn
                    && links@[nn]@[i].elm < e,
            forall|nn: int, i1: int, i2: int|
                #![trigger links@[nn]@[i1], links@[nn]@[i2]]
                0 <= nn < count && 0 <= i1 < i2 < links@[nn]@.len() ==> link_before(
                    links@[nn]@[i1],
                    links@[nn]@[i2],
                ),
            forall|e2: int, k: int|
                is_slot(es, e2, k) && e2 < e ==> #[trigger] linked(links@[en[e2]@[k] as int]@, e2, k),
        decreases n - e,
    {
        let nc = elem_nodes[e].len();
        let mut k: usize = 0;
        while k < nc
            invariant
                es == elems@,
                en == elem_nodes@,
                n == es.len(),
                e < n,
                nc == es[e as int].node_count(),
                k <= nc,
                en.len() == es.len(),
                forall|e2: int| 0 <= e2 < es.len() ==> (#[trigger] en[e2])@.len() == es[e2].node_count(),
                forall|e2: int, k2: int| is_slot(es, e2, k2) ==> (#[trigger] en[e2]@[k2]) < count,
                links@.len() == count,
                forall|nn: int, i: int|
                    #![trigger links@[nn]@[i]]
                    0 <= nn < count && 0 <= i < links@[nn]@.len() ==> is_slot(
                        es,
                        links@[nn]@[i].elm as int,
                        links@[nn]@[i].post as int,
                    ) && en[links@[nn]@[i].elm as int]@[links@[nn]@[i].post as int] == nn
                        && (links@[nn]@[i].elm < e || (links@[nn]@[i].elm == e && links@[nn]@[i].post < k)),
                forall|nn: int, i1: int, i2: int|
                    #![trigger links@[nn]@[i1], links@[nn]@[i2]]
                    0 <= nn < count && 0 <= i1 < i2 < links@[nn]@.len() ==> link_before(
                        links@[nn]@[i1],
                        links@[nn]@[i2],
                    ),
                forall|e2: int, k2: int|
                    is_slot(es, e2, k2) && (e2 < e || (e2 == e && k2 < k)) ==> #[trigger] linked(
                        links@[en[e2]@[k2] as int]@,
                        e2,
                        k2,
                    ),
            decreases nc - k,
        {
            let node = elem_nodes[e][k];
            let ghost links0 = links@;
            let link = NodeLink { elm: e, post: k };
            links[node].push(link);
            proof {
                assert forall|nn: int, i: int|
                    #![trigger links@[nn]@[i]]
                    0 <= nn < count && 0 <= i < links@[nn]@.len() implies is_slot(
                        es,
                        links@[nn]@[i].elm as int,
                        links@[nn]@[i].post as int,
                    ) && en[links@[nn]@[i].elm as int]@[links@[nn]@[i].post as int] == nn
                        && (links@[nn]@[i].elm < e || (links@[nn]@[i].elm == e && links@[nn]@[i].post < k + 1)) by {
                    if nn != node {
                        assert(links@[nn] == links0[nn]);
                    } else if i < links0[nn]@.len() {
                        assert(links@[nn]@[i] == links0[nn]@[i]);
                    }
                }
                assert forall|nn: int, i1: int, i2: int|
                    #![trigger links@[nn]@[i1], links@[nn]@[i2]]
                    0 <= nn < count && 0 <= i1 < i2 < links@[nn]@.len() implies link_before(
                        links@[nn]@[i1],
                        links@[nn]@[i2],
                    ) by {
                    if nn != node {
                        assert(links@[nn] == links0[nn]);
                    } else {
                        assert(links@[nn]@[i1] == links0[nn]@[i1]);
                        if i2 < links0[nn]@.len() {
                            assert(links@[nn]@[i2] == links0[nn]@[i2]);
                        }
                    }
                }
                assert forall|e2: int, k2: int|
                    is_slot(es, e2, k2) && (e2 < e || (e2 == e && k2 < k + 1)) implies #[trigger] linked(
                        links@[en[e2]@[k2] as int]@,
                        e2,
                        k2,
                    ) by {
                    let nn = en[e2]@[k2] as int;
                    if e2 == e && k2 == k {
                        assert(links@[nn]@[links0[nn]@.len() as int] == link);
                    } else {
                        assert(linked(links0[nn]@, e2, k2));
                        let i = choose|i: int| 0 <= i < links0[nn]@.len() && links0[nn]@[i].elm == e2 && links0[nn]@[i].post == k2;
                        if nn == node {
                            assert(links@[nn]@[i] == links0[nn]@[i]);
                        } else {
                            assert(links@[nn] == links0[nn]);
                        }
                    }
                }
            }
            k = k + 1;
        }
        e = e + 1;
    }
    links
}

/// Inside element `e`, terminal `p1` (on node `a`) conducts to post `k`
/// (on node `b`).
pub open spec fn conn_at(elems: Seq<ElementTopology>, en: Seq<Vec<usize>>, e: int, p1: int, k: int) -> bool {
    &&& is_slot(elems, e, p1)
    &&& 0 <= k < elems[e].posts@.len()
    &&& k != p1
    &&& elems[e].connection@[p1]@[k]
}

/// Some element conducts from node `a` to node `b`.
pub open spec fn conn_edge(elems: Seq<ElementTopology>, en: Seq<Vec<usize>>, a: int, b: int) -> bool {
    exists|e: int, p1: int, k: int|
        #![trigger en[e]@[p1], en[e]@[k]]
        conn_at(elems, en, e, p1, k) && en[e]@[p1] == a && en[e]@[k] == b
}

/// `t` contains every node some element conducts to from a node in `t`.
pub open spec fn conn_closed(elems: Seq<ElementTopology>, en: Seq<Vec<usize>>, t: Set<int>) -> bool {
    forall|a: int, b: int| #[trigger] t.contains(a) && #[trigger] conn_edge(elems, en, a, b) ==> t.contains(b)
}

/// Node `n` is reached from the nodes `s` through conducting elements:
/// it lies in every conduction-closed set that holds `s`.
pub open spec fn conn_reach(elems: Seq<ElementTopology>, en: Seq<Vec<usize>>, s: Set<int>, n: int) -> bool {
    forall|t: Set<int>| #[trigger] conn_closed(elems, en, t) && s.subset_of(t) ==> t.contains(n)
}

/// Node `n` is ground or is a post with a path to ground inside its element.
pub open spec fn ground_tied(elems: Seq<ElementTopology>, en: Seq<Vec<usize>>, n: int) -> bool {
    n == 0 || exists|e: int, j: int|
        #![trigger en[e]@[j]]
        0 <= e < elems.len() && 0 <= j < elems[e].posts@.len() && elems[e].ground_connection@[j]
            && en[e]@[j] == n
}

/// Sources of the search that decides whether `n` is unconnected: the nodes
/// tied to ground and the unconnected nodes below `n`.
pub open spec fn sources_below(elems: Seq<ElementTopology>, en: Seq<Vec<usize>>, u: Seq<usize>, n: int) -> Set<int> {
    Set::new(|x: int| ground_tied(elems, en, x) || (u.contains(x as usize) && 0 <= x < n))
}

/// `u` lists, in increasing order, the nodes that are neither internal nor
/// reached from ground or from an earlier node of `u`.
pub open spec fn unconnected_ok(
    elems: Seq<ElementTopology>,
    en: Seq<Vec<usize>>,
    internal: Seq<bool>,
    u: Seq<usize>,
) -> bool {
    let count = internal.len();
    &&& forall|i: int| 0 <= i < u.len() ==> 1 <= #[trigger] u[i] < count && !internal[u[i] as int]
    &&& forall|i1: int, i2: int| 0 <= i1 < i2 < u.len() ==> #[trigger] u[i1] < #[trigger] u[i2]
    &&& forall|n: int|
        1 <= n < count && !internal[n] ==> (u.contains(n as usize) <==> !#[trigger] conn_reach(
            elems,
            en,
            sources_below(elems, en, u, n),
            n,
        ))
}

proof fn lemma_reach_step(elems: Seq<ElementTopology>, en: Seq<Vec<usize>>, s: Set<int>, a: int, b: int)
    requires
        conn_reach(elems, en, s, a),
        conn_edge(elems, en, a, b),
    ensures
        conn_reach(elems, en, s, b),
{
    assert forall|t: Set<int>| #[trigger] conn_closed(elems, en, t) && s.subset_of(t) implies t.contains(b) by {
        assert(t.contains(a));
    }
}

proof fn lemma_reach_source(elems: Seq<ElementTopology>, en: Seq<Vec<usize>>, s: Set<int>, a: int)
    requires
        s.contains(a),
    ensures
        conn_reach(elems, en, s, a),
{
}

proof fn lemma_reach_mono(elems: Seq<ElementTopology>, en: Seq<Vec<usize>>, s1: Set<int>, s2: Set<int>, a: int)
    requires
        conn_reach(elems, en, s1, a),
        s1.subset_of(s2),
    ensures
        conn_reach(elems, en, s2, a),
{
    assert forall|t: Set<int>| #[trigger] conn_closed(elems, en, t) && s2.subset_of(t) implies t.contains(a) by {
        assert(s1.subset_of(t));
    }
}

proof fn lemma_not_reach(elems: Seq<ElementTopology>, en: Seq<Vec<usize>>, s: Set<int>, t: Set<int>, a: int)
    requires
        conn_closed(elems, en, t),
        s.subset_of(t),
        !t.contains(a),
    ensures
        !conn_reach(elems, en, s, a),
{
}

/// Number of `true` entries.
pub open spec fn count_true(s: Seq<bool>) -> nat
    decreases s.len(),
{
    if s.len() == 0 {
        0
    } else {
        count_true(s.drop_last()) + if s.last() {
            1nat
        } else {
            0nat
        }
    }
}

proof fn lemma_count_true_bound(s: Seq<bool>)
    ensures
        count_true(s) <= s.len(),
    decreases s.len(),
{
    if s.len() > 0 {
        lemma_count_true_bound(s.drop_last());
    }
}

proof fn lemma_count_true_set(s: Seq<bool>, i: int)
    requires
        0 <= i < s.len(),
        !s[i],
    ensures
        count_true(s.update(i, true)) == count_true(s) + 1,
    decreases s.len(),
{
    let s2 = s.update(i, true);
    if i == s.len() - 1 {
        assert(s2.drop_last() =~= s.drop_last());
    } else {
        lemma_count_true_set(s.drop_last(), i);
        assert(s2.drop_last() =~= s.drop_last().update(i, true));
    }
}

/// Shapes of the numbering tables the graph searches read.
pub open spec fn tables_ok(
    elems: Seq<ElementTopology>,
    en: Seq<Vec<usize>>,
    count: int,
    links: Seq<Vec<NodeLink>>,
) -> bool {
    &&& elements_wf_rows(elems, en, count)
    &&& links_of(elems, en, count, links)
}

/// The elements are well formed and `en` gives each terminal a node below `count`.
pub open spec fn elements_wf_rows(elems: Seq<ElementTopology>, en: Seq<Vec<usize>>, count: int) -> bool {
    &&& netlist::elements_wf(elems)
    &&& en.len() == elems.len()
    &&& forall|e: int| 0 <= e < elems.len() ==> (#[trigger] en[e])@.len() == elems[e].node_count()
    &&& forall|e: int, k: int| is_slot(elems, e, k) ==> (#[trigger] en[e]@[k]) < count
}

/// The marked nodes as a set.
pub open spec fn marked_set(closure: Seq<bool>) -> Set<int> {
    Set::new(|x: int| 0 <= x < closure.len() && closure[x])
}

/// Every marked node that is not waiting in `queue` has all its conduction
/// successors marked.
pub open spec fn expanded(elems: Seq<ElementTopology>, en: Seq<Vec<usize>>, closure: Seq<bool>, queue: Seq<usize>) -> bool {
    forall|a: int, b: int|
        0 <= a < closure.len() && #[trigger] closure[a] && !queue.contains(a as usize) && #[trigger] conn_edge(elems, en, a, b) ==> 0 <= b < closure.len() && closure[b]
}

/// Marks every node reached by conduction from node `a`, queueing the newly
/// marked ones.
fn visit_node(
    elems: &Vec<ElementTopology>,
    en: &Vec<Vec<usize>>,
    links: &Vec<Vec<NodeLink>>,
    a: usize,
    closure: &mut Vec<bool>,
    queue: &mut VecDeque<usize>,
    Ghost(src): Ghost<Set<int>>,
)
    requires
        tables_ok(elems@, en@, old(closure)@.len() as int, links@),
        a < old(closure)@.len(),
        conn_reach(elems@, en@, src, a as int),
        forall|x: int| 0 <= x < old(closure)@.len() && old(closure)@[x] ==> conn_reach(elems@, en@, src, x),
        forall|i: int| 0 <= i < old(queue)@.len() ==> (#[trigger] old(queue)@[i]) < old(closure)@.len() && old(closure)@[old(queue)@[i] as int],
    ensures
        final(closure)@.len() == old(closure)@.len(),
        forall|x: int| 0 <= x < old(closure)@.len() && old(closure)@[x] ==> final(closure)@[x],
        forall|x: int| 0 <= x < final(closure)@.len() && final(closure)@[x] ==> conn_reach(elems@, en@, src, x),
        forall|i: int| 0 <= i < final(queue)@.len() ==> (#[trigger] final(queue)@[i]) < final(closure)@.len() && final(closure)@[final(queue)@[i] as int],
        final(queue)@.len() >= old(queue)@.len(),
        final(queue)@.take(old(queue)@.len() as int) == old(queue)@,
        forall|i: int| old(queue)@.len() <= i < final(queue)@.len() ==> !old(closure)@[#[trigger] final(queue)@[i] as int],
        count_true(final(closure)@) == count_true(old(closure)@) + final(queue)@.len() - old(queue)@.len(),
        forall|b: int| #[trigger] conn_edge(elems@, en@, a as int, b) ==> 0 <= b < final(closure)@.len() && final(closure)@[b],
        forall|x: int| 0 <= x < final(closure)@.len() && #[trigger] final(closure)@[x] && !old(closure)@[x] ==> final(queue)@.contains(x as usize),
{
    let ghost es = elems@;
    let ghost enr = en@;
    let ghost cl0 = closure@;
    let ghost q0 = queue@;
    let count = closure.len();
    let ls = &links[a];
    let nl = ls.len();
    let mut i: usize = 0;
    while i < nl
        invariant
            es == elems@,
            enr == en@,
            tables_ok(es, enr, count as int, links@),
            count == closure@.len(),
            count == cl0.len(),
            a < count,
            *ls == links@[a as int],
            nl == ls@.len(),
            i <= nl,
            forall|x: int| 0 <= x < count && cl0[x] ==> closure@[x],
            forall|x: int| 0 <= x < count && closure@[x] ==> conn_reach(es, enr, src, x),
            forall|j: int| 0 <= j < queue@.len() ==> (#[trigger] queue@[j]) < count && closure@[queue@[j] as int],
            queue@.take(q0.len() as int) == q0,
            queue@.len() >= q0.len(),
            forall|j: int| q0.len() <= j < queue@.len() ==> !cl0[#[trigger] queue@[j] as int],
            count_true(closure@) == count_true(cl0) + queue@.len() - q0.len(),
            conn_reach(es, enr, src, a as int),
            forall|x: int| 0 <= x < count && #[trigger] closure@[x] && !cl0[x] ==> queue@.contains(x as usize),
            forall|i2: int, k: int|
                0 <= i2 < i && conn_at(es, enr, ls@[i2].elm as int, ls@[i2].post as int, k) ==> closure@[#[trigger] enr[ls@[i2].elm as int]@[k] as int],
        decreases nl - i,
    {
        let link = ls[i];
        let e = link.elm;
        let p1 = link.post;
        proof {
            assert(ls@[i as int] == links@[a as int]@[i as int]);
            assert(is_slot(es, e as int, p1 as int));
            assert(es[e as int].wf());
        }
        let np = elems[e].posts.len();
        let mut k: usize = 0;
        while k < np
            invariant
                es == elems@,
                enr == en@,
                tables_ok(es, enr, count as int, links@),
                count == closure@.len(),
                count == cl0.len(),
                a < count,
                *ls == links@[a as int],
                nl == ls@.len(),
                i < nl,
                link == ls@[i as int],
                e == link.elm,
                p1 == link.post,
                is_slot(es, e as int, p1 as int),
                es[e as int].wf(),
                enr[e as int]@[p1 as int] == a,
                np == es[e as int].posts@.len(),
                k <= np,
                forall|x: int| 0 <= x < count && cl0[x] ==> closure@[x],
                forall|x: int| 0 <= x < count && closure@[x] ==> conn_reach(es, enr, src, x),
                forall|j: int| 0 <= j < queue@.len() ==> (#[trigger] queue@[j]) < count && closure@[queue@[j] as int],
                queue@.take(q0.len() as int) == q0,
                queue@.len() >= q0.len(),
                forall|j: int| q0.len() <= j < queue@.len() ==> !cl0[#[trigger] queue@[j] as int],
                count_true(closure@) == count_true(cl0) + queue@.len() - q0.len(),
                conn_reach(es, enr, src, a as int),
                forall|x: int| 0 <= x < count && #[trigger] closure@[x] && !cl0[x] ==> queue@.contains(x as usize),
                forall|i2: int, k2: int|
                    0 <= i2 < i && conn_at(es, enr, ls@[i2].elm as int, ls@[i2].post as int, k2) ==> closure@[#[trigger] enr[ls@[i2].elm as int]@[k2] as int],
                forall|k2: int|
                    0 <= k2 < k && conn_at(es, enr, e as int, p1 as int, k2) ==> closure@[#[trigger] enr[e as int]@[k2] as int],
            decreases np - k,
        {
            if k != p1 {
                proof {
                    assert(es[e as int].connection@[p1 as int]@.len() == np);
                    assert(is_slot(es, e as int, k as int));
                }
                let kn = en[e][k];
                if !closure[kn] && elems[e].connection[p1][k] {
                    let ghost cl1 = closure@;
                    let ghost q1 = queue@;
                    proof {
                        assert(conn_at(es, enr, e as int, p1 as int, k as int));
                        assert(conn_edge(es, enr, a as int, kn as int));
                        lemma_reach_step(es, enr, src, a as int, kn as int);
                        lemma_count_true_set(cl1, kn as int);
                    }
                    closure.set(kn, true);
                    queue.push_back(kn);
                    proof {
                        assert(queue@.take(q0.len() as int) =~= q0) by {
                            assert forall|j: int| 0 <= j < q0.len() implies queue@[j] == q0[j] by {
                                assert(q1.take(q0.len() as int)[j] == q0[j]);
                            }
                        }
                        assert forall|j: int| q0.len() <= j < queue@.len() implies !cl0[#[trigger] queue@[j] as int] by {
                            if j < q1.len() {
                                assert(queue@[j] == q1[j]);
                            }
                        }
                        assert forall|j: int| 0 <= j < queue@.len() implies (#[trigger] queue@[j]) < count && closure@[queue@[j] as int] by {
                            if j < q1.len() {
                                assert(queue@[j] == q1[j]);
                            }
                        }
                        assert forall|x: int| 0 <= x < count && #[trigger] closure@[x] && !cl0[x] implies queue@.contains(x as usize) by {
                            if x != kn {
                                assert(cl1[x]);
                                let j = choose|j: int| 0 <= j < q1.len() && q1[j] == x as usize;
                                assert(queue@[j] == q1[j]);
                            } else {
                                assert(queue@[q1.len() as int] == kn);
                            }
                        }
                    }
                }
            }
            k = k + 1;
        }
        i = i + 1;
    }
    proof {
        assert forall|b: int| #[trigger] conn_edge(es, enr, a as int, b) implies 0 <= b < count && closure@[b] by {
            let (e, p1, k) = choose|e: int, p1: int, k: int|
                #![trigger enr[e]@[p1], enr[e]@[k]]
                conn_at(es, enr, e, p1, k) && enr[e]@[p1] == a && enr[e]@[k] == b;
            assert(linked(links@[enr[e]@[p1] as int]@, e, p1));
            let i2 = choose|i2: int| 0 <= i2 < ls@.len() && ls@[i2].elm == e && ls@[i2].post == p1;
            assert(is_slot(es, e, k));
        }
    }
}

/// Marks everything reached by conduction from the queued nodes, until the
/// queue is empty.
fn expand(
    elems: &Vec<ElementTopology>,
    en: &Vec<Vec<usize>>,
    links: &Vec<Vec<NodeLink>>,
    closure: &mut Vec<bool>,
    queue: &mut VecDeque<usize>,
    Ghost(src): Ghost<Set<int>>,
)
    requires
        tables_ok(elems@, en@, old(closure)@.len() as int, links@),
        forall|x: int| 0 <= x < old(closure)@.len() && old(closure)@[x] ==> conn_reach(elems@, en@, src, x),
        forall|i: int| 0 <= i < old(queue)@.len() ==> (#[trigger] old(queue)@[i]) < old(closure)@.len() && old(closure)@[old(queue)@[i] as int],
        expanded(elems@, en@, old(closure)@, old(queue)@),
    ensures
        final(closure)@.len() == old(closure)@.len(),
        forall|x: int| 0 <= x < old(closure)@.len() && old(closure)@[x] ==> final(closure)@[x],
        forall|x: int| 0 <= x < final(closure)@.len() && final(closure)@[x] ==> conn_reach(elems@, en@, src, x),
        final(queue)@.len() == 0,
        expanded(elems@, en@, final(closure)@, final(queue)@),
{
    let ghost cl0 = closure@;
    let ghost count = closure@.len();
    while queue.len() > 0
        invariant
            tables_ok(elems@, en@, count as int, links@),
            closure@.len() == count,
            forall|x: int| 0 <= x < count && cl0[x] ==> closure@[x],
            forall|x: int| 0 <= x < count && closure@[x] ==> conn_reach(elems@, en@, src, x),
            forall|i: int| 0 <= i < queue@.len() ==> (#[trigger] queue@[i]) < count && closure@[queue@[i] as int],
            expanded(elems@, en@, closure@, queue@),
        decreases 2 * (count - count_true(closure@)) + queue@.len(),
    {
        proof {
            lemma_count_true_bound(closure@);
        }
        let ghost cl1 = closure@;
        let ghost q1 = queue@;
        let a = queue.pop_front().unwrap();
        proof {
            assert(q1[0] == a);
            assert(queue@ == q1.subrange(1, q1.len() as int));
        }
        let ghost q2 = queue@;
        visit_node(elems, en, links, a, closure, queue, Ghost(src));
        proof {
            lemma_count_true_bound(closure@);
            assert forall|x: int, b: int|
                0 <= x < closure@.len() && #[trigger] closure@[x] && !queue@.contains(x as usize) && #[trigger] conn_edge(elems@, en@, x, b) implies 0 <= b < closure@.len() && closure@[b] by {
                if x != a {
                    if cl1[x] {
                        if q1.contains(x as usize) {
                            let j = choose|j: int| 0 <= j < q1.len() && q1[j] == x as usize;
                            assert(j != 0);
                            assert(j - 1 < q2.len());
                            assert(q2[j - 1] == q1[j]);
                            assert(q2.len() <= queue@.len());
                            assert(queue@.take(q2.len() as int) == q2);
                            assert(queue@.take(q2.len() as int)[j - 1] == queue@[j - 1]);
                            assert(queue@[j - 1] == x as usize);
                            assert(queue@.contains(x as usize));
                        } else {
                            assert(cl1[b]);
                        }
                    } else {
                        assert(queue@.contains(x as usize));
                    }
                }
            }
        }
    }
}


/// Marks node 0 and every node that is a post with a path to ground inside
/// its element, and queues them.
fn mark_grounded(elems: &Vec<ElementTopology>, en: &Vec<Vec<usize>>, count: usize) -> (r: (Vec<bool>, VecDeque<usize>))
    requires
        elements_wf_rows(elems@, en@, count as int),
        count >= 1,
    ensures
        r.0@.len() == count,
        forall|x: int| 0 <= x < count ==> (r.0@[x] <==> ground_tied(elems@, en@, x)),
        forall|i: int| 0 <= i < r.1@.len() ==> (#[trigger] r.1@[i]) < count && r.0@[r.1@[i] as int],
        forall|x: int| 0 <= x < count && #[trigger] r.0@[x] ==> r.1@.contains(x as usize),
{
    let ghost es = elems@;
    let ghost enr = en@;
    let mut closure: Vec<bool> = Vec::new();
    let mut i: usize = 0;
    while i < count
        invariant
            closure@.len() == i,
            i <= count,
            forall|x: int| 0 <= x < i ==> !closure@[x],
        decreases count - i,
    {
        closure.push(false);
        i = i + 1;
    }
    closure.set(0, true);
    let mut queue: VecDeque<usize> = VecDeque::new();
    queue.push_back(0);
    proof {
        assert forall|x: int| 0 <= x < count && #[trigger] closure@[x] implies queue@.contains(x as usize) by {
            assert(x == 0);
            assert(queue@[0] == 0);
        }
        assert(ground_tied(es, enr, 0));
    }
    let n = elems.len();
    let mut e: usize = 0;
    while e < n
        invariant
            es == elems@,
            enr == en@,
            n == es.len(),
            e <= n,
            elements_wf_rows(es, enr, count as int),
            count >= 1,
            closure@.len() == count,
            closure@[0],
            forall|x: int| 0 <= x < count && closure@[x] ==> ground_tied(es, enr, x),
            forall|e2: int, j: int|
                0 <= e2 < e && 0 <= j < es[e2].posts@.len() && es[e2].ground_connection@[j] ==> closure@[#[trigger] enr[e2]@[j] as int],
            forall|i: int| 0 <= i < queue@.len() ==> (#[trigger] queue@[i]) < count && closure@[queue@[i] as int],
            forall|x: int| 0 <= x < count && #[trigger] closure@[x] ==> queue@.contains(x as usize),
        decreases n - e,
    {
        proof {
            assert(es[e as int].wf());
        }
        let np = elems[e].posts.len();
        let mut j: usize = 0;
        while j < np
            invariant
                es == elems@,
                enr == en@,
                n == es.len(),
                e < n,
                np == es[e as int].posts@.len(),
                es[e as int].wf(),
                j <= np,
                elements_wf_rows(es, enr, count as int),
                closure@.len() == count,
                closure@[0],
                forall|x: int| 0 <= x < count && closure@[x] ==> ground_tied(es, enr, x),
                forall|e2: int, j2: int|
                    0 <= e2 < e && 0 <= j2 < es[e2].posts@.len() && es[e2].ground_connection@[j2] ==> closure@[#[trigger] enr[e2]@[j2] as int],
                forall|j2: int|
                    0 <= j2 < j && es[e as int].ground_connection@[j2] ==> closure@[#[trigger] enr[e as int]@[j2] as int],
                forall|i: int| 0 <= i < queue@.len() ==> (#[trigger] queue@[i]) < count && closure@[queue@[i] as int],
                forall|x: int| 0 <= x < count && #[trigger] closure@[x] ==> queue@.contains(x as usize),
            decreases np - j,
        {
            proof {
                assert(is_slot(es, e as int, j as int));
            }
            if elems[e].ground_connection[j] {
                let kn = en[e][j];
                let ghost q1 = queue@;
                let ghost cl1 = closure@;
                if !closure[kn] {
                    closure.set(kn, true);
                    queue.push_back(kn);
                    proof {
                        assert forall|i: int| 0 <= i < queue@.len() implies (#[trigger] queue@[i]) < count && closure@[queue@[i] as int] by {
                            if i < q1.len() {
                                assert(queue@[i] == q1[i]);
                            }
                        }
                        assert forall|x: int| 0 <= x < count && #[trigger] closure@[x] implies queue@.contains(x as usize) by {
                            if x == kn {
                                assert(queue@[q1.len() as int] == kn);
                            } else {
                                assert(cl1[x]);
                                let i = choose|i: int| 0 <= i < q1.len() && q1[i] == x as usize;
                                assert(queue@[i] == q1[i]);
                            }
                        }
                    }
                }
                proof {
                    assert(ground_tied(es, enr, kn as int));
                }
            }
            j = j + 1;
        }
        e = e + 1;
    }
    proof {
        assert forall|x: int| 0 <= x < count && ground_tied(es, enr, x) implies closure@[x] by {
            if x != 0 {
                let (e2, j2) = choose|e2: int, j2: int|
                    #![trigger enr[e2]@[j2]]
                    0 <= e2 < es.len() && 0 <= j2 < es[e2].posts@.len() && es[e2].ground_connection@[j2]
                        && enr[e2]@[j2] == x;
                assert(closure@[enr[e2]@[j2] as int]);
            }
        }
    }
    (closure, queue)
}

/// The nodes, in increasing order, that are not internal and that no
/// conducting path joins to ground or to an earlier such node.
pub(crate) fn find_unconnected(
    elems: &Vec<ElementTopology>,
    en: &Vec<Vec<usize>>,
    links: &Vec<Vec<NodeLink>>,
    internal: &Vec<bool>,
) -> (u: Vec<usize>)
    requires
        tables_ok(elems@, en@, internal@.len() as int, links@),
        internal@.len() >= 1,
    ensures
        unconnected_ok(elems@, en@, internal@, u@),
{
    let ghost es = elems@;
    let ghost enr = en@;
    let count = internal.len();
    let (mut closure, mut queue) = mark_grounded(elems, en, count);
    let ghost s0 = sources_below(es, enr, Seq::<usize>::empty(), 1);
    proof {
        assert forall|x: int| 0 <= x < count && closure@[x] implies conn_reach(es, enr, s0, x) by {
            assert(s0.contains(x));
            lemma_reach_source(es, enr, s0, x);
        }
        assert(expanded(es, enr, closure@, queue@));
    }
    expand(elems, en, links, &mut closure, &mut queue, Ghost(s0));
    let mut u: Vec<usize> = Vec::new();
    proof {
        assert(sources_below(es, enr, u@, 1) =~= s0);
    }
    let mut n: usize = 1;
    while n < count
        invariant
            es == elems@,
            enr == en@,
            count == internal@.len(),
            tables_ok(es, enr, count as int, links@),
            1 <= n <= count,
            closure@.len() == count,
            queue@.len() == 0,
            expanded(es, enr, closure@, queue@),
            forall|x: int| 0 <= x < count && closure@[x] ==> conn_reach(es, enr, sources_below(es, enr, u@, n as int), x),
            forall|x: int| 0 <= x < count && ground_tied(es, enr, x) ==> closure@[x],
            forall|i: int| 0 <= i < u@.len() ==> 1 <= #[trigger] u@[i] < n && !internal@[u@[i] as int] && closure@[u@[i] as int],
            forall|i1: int, i2: int| 0 <= i1 < i2 < u@.len() ==> #[trigger] u@[i1] < #[trigger] u@[i2],
            forall|m: int|
                1 <= m < n && !internal@[m] ==> (u@.contains(m as usize) <==> !#[trigger] conn_reach(
                    es,
                    enr,
                    sources_below(es, enr, u@, m),
                    m,
                )),
        decreases count - n,
    {
        let ghost u0 = u@;
        let ghost sn = sources_below(es, enr, u0, n as int);
        if !closure[n] && !internal[n] {
            proof {
                assert(sn.subset_of(marked_set(closure@))) by {
                    assert forall|x: int| sn.contains(x) implies marked_set(closure@).contains(x) by {
                        if !ground_tied(es, enr, x) {
                            let i = choose|i: int| 0 <= i < u0.len() && u0[i] == x as usize;
                            assert(closure@[u0[i] as int]);
                        }
                    }
                }
                assert(conn_closed(es, enr, marked_set(closure@)));
                lemma_not_reach(es, enr, sn, marked_set(closure@), n as int);
            }
            let ghost cl1 = closure@;
            let ghost q0 = queue@;
            u.push(n);
            closure.set(n, true);
            queue.push_back(n);
            let ghost s1 = sources_below(es, enr, u@, n as int + 1);
            proof {
                assert forall|x: int| sn.contains(x) implies s1.contains(x) by {
                    if !ground_tied(es, enr, x) {
                        let i = choose|i: int| 0 <= i < u0.len() && u0[i] == x as usize;
                        assert(u@[i] == u0[i]);
                    }
                }
                assert(s1.contains(n as int)) by {
                    assert(u@[u0.len() as int] == n);
                }
                assert forall|x: int| 0 <= x < count && closure@[x] implies conn_reach(es, enr, s1, x) by {
                    if x == n {
                        lemma_reach_source(es, enr, s1, x);
                    } else {
                        lemma_reach_mono(es, enr, sn, s1, x);
                    }
                }
                assert forall|a: int, b: int|
                    0 <= a < closure@.len() && #[trigger] closure@[a] && !queue@.contains(a as usize) && #[trigger] conn_edge(es, enr, a, b) implies 0 <= b < closure@.len() && closure@[b] by {
                    if a == n {
                        assert(queue@[0] == n);
                    } else {
                        assert(!q0.contains(a as usize));
                        assert(cl1[a]);
                        assert(cl1[b]);
                    }
                }
            }
            expand(elems, en, links, &mut closure, &mut queue, Ghost(s1));
            proof {
                assert forall|m: int|
                    1 <= m < n + 1 && !internal@[m] implies (u@.contains(m as usize) <==> !#[trigger] conn_reach(
                        es,
                        enr,
                        sources_below(es, enr, u@, m),
                        m,
                    )) by {
                    assert forall|x: int| #[trigger] sources_below(es, enr, u@, m).contains(x) == sources_below(es, enr, u0, m).contains(x) by {
                        if u0.contains(x as usize) {
                            let i = choose|i: int| 0 <= i < u0.len() && u0[i] == x as usize;
                            assert(u@[i] == u0[i]);
                        }
                        if u@.contains(x as usize) && x < m {
                            let i = choose|i: int| 0 <= i < u@.len() && u@[i] == x as usize;
                            if i < u0.len() {
                                assert(u@[i] == u0[i]);
                            }
                        }
                    }
                    assert(sources_below(es, enr, u@, m) =~= sources_below(es, enr, u0, m));
                    if m < n {
                        if u0.contains(m as usize) {
                            let i = choose|i: int| 0 <= i < u0.len() && u0[i] == m as usize;
                            assert(u@[i] == u0[i]);
                        }
                        if u@.contains(m as usize) {
                            let i = choose|i: int| 0 <= i < u@.len() && u@[i] == m as usize;
                            assert(i != u0.len());
                            assert(u@[i] == u0[i]);
                        }
                    } else {
                        assert(u@[u0.len() as int] == n);
                    }
                }
            }
        } else {
            proof {
                if closure@[n as int] {
                    assert(conn_reach(es, enr, sn, n as int));
                }
                assert(sources_below(es, enr, u@, n as int + 1) =~= sn);
            }
        }
        n = n + 1;
    }
    u
}


/// Inside element `e`, terminals `p1` and `k` share one equation system.
pub open spec fn mconn_at(elems: Seq<ElementTopology>, e: int, p1: int, k: int) -> bool {
    &&& is_slot(elems, e, p1)
    &&& is_slot(elems, e, k)
    &&& k != p1
    &&& elems[e].matrix_connection@[p1]@[k]
}

/// Some element couples node `a` to node `b` in one equation system.
pub open spec fn m_edge(elems: Seq<ElementTopology>, en: Seq<Vec<usize>>, a: int, b: int) -> bool {
    exists|e: int, p1: int, k: int|
        #![trigger en[e]@[p1], en[e]@[k]]
        mconn_at(elems, e, p1, k) && en[e]@[p1] == a && en[e]@[k] == b
}

/// `t` contains every node outside `avoid` that a node of `t` is coupled to.
pub open spec fn avoid_closed(elems: Seq<ElementTopology>, en: Seq<Vec<usize>>, t: Set<int>, avoid: Set<int>) -> bool {
    forall|a: int, b: int|
        #[trigger] t.contains(a) && #[trigger] m_edge(elems, en, a, b) && !avoid.contains(b) ==> t.contains(b)
}

/// Node `n` is reached from `r` by couplings that never enter `avoid`.
pub open spec fn avoid_reach(elems: Seq<ElementTopology>, en: Seq<Vec<usize>>, avoid: Set<int>, r: int, n: int) -> bool {
    forall|t: Set<int>| #[trigger] avoid_closed(elems, en, t, avoid) && t.contains(r) ==> t.contains(n)
}

/// Node 0 and the nodes of the systems numbered below `c`.
pub open spec fn earlier(cidx: Seq<Option<usize>>, c: int) -> Set<int> {
    Set::new(|x: int| x == 0 || (0 <= x < cidx.len() && cidx[x] is Some && cidx[x]->0 < c))
}

/// `r` is the least node of system `d`.
pub open spec fn is_rep(cidx: Seq<Option<usize>>, d: int, r: int) -> bool {
    &&& 0 <= d <= usize::MAX
    &&& 1 <= r < cidx.len()
    &&& cidx[r] == Some(d as usize)
    &&& forall|y: int| 1 <= y < r ==> cidx[y] != Some(d as usize)
}

/// Some node from 1 up to but not including `x` is in system `d`.
pub open spec fn used_below(cidx: Seq<Option<usize>>, x: int, d: int) -> bool {
    exists|y: int| 1 <= y < x && #[trigger] cidx[y] == Some(d as usize)
}

/// System `d` has nodes.
pub open spec fn has_rep(cidx: Seq<Option<usize>>, d: int) -> bool {
    exists|r: int| #[trigger] is_rep(cidx, d, r)
}

/// `cidx` gives each node but 0 its equation system, and there are `nclos`
/// systems (at least one). Systems are numbered in order of their least
/// node; a system is everything its least node is coupled to, directly or
/// through other nodes, without passing node 0 or a node of an earlier
/// system.
pub open spec fn closures_ok(elems: Seq<ElementTopology>, en: Seq<Vec<usize>>, cidx: Seq<Option<usize>>, nclos: int) -> bool {
    let count = cidx.len();
    &&& count >= 1
    &&& cidx[0] is None
    &&& nclos >= 1
    &&& forall|x: int| 1 <= x < count ==> (#[trigger] cidx[x]) is Some && cidx[x]->0 < nclos
    &&& count == 1 ==> nclos == 1
    &&& count > 1 ==> forall|d: int| 0 <= d < nclos ==> #[trigger] has_rep(cidx, d)
    &&& forall|x: int, d: int|
        1 <= x < count && 0 <= d < cidx[x]->0 ==> #[trigger] used_below(cidx, x, d)
    &&& forall|x: int, r: int|
        1 <= x < count && #[trigger] is_rep(cidx, cidx[x]->0 as int, r) ==> avoid_reach(
            elems,
            en,
            earlier(cidx, cidx[x]->0 as int),
            r,
            x,
        )
    &&& forall|d: int, r: int, n: int|
        #[trigger] is_rep(cidx, d, r) && #[trigger] avoid_reach(elems, en, earlier(cidx, d), r, n) ==> 0 <= n < count
            && cidx[n] == Some(d as usize)
}

/// Number of unassigned entries.
pub open spec fn count_none(s: Seq<Option<usize>>) -> nat
    decreases s.len(),
{
    if s.len() == 0 {
        0
    } else {
        count_none(s.drop_last()) + if s.last() is None {
            1nat
        } else {
            0nat
        }
    }
}

proof fn lemma_count_none_bound(s: Seq<Option<usize>>)
    ensures
        count_none(s) <= s.len(),
    decreases s.len(),
{
    if s.len() > 0 {
        lemma_count_none_bound(s.drop_last());
    }
}

proof fn lemma_count_none_set(s: Seq<Option<usize>>, i: int, v: usize)
    requires
        0 <= i < s.len(),
        s[i] is None,
    ensures
        count_none(s.update(i, Some(v))) + 1 == count_none(s),
    decreases s.len(),
{
    let s2 = s.update(i, Some(v));
    if i == s.len() - 1 {
        assert(s2.drop_last() =~= s.drop_last());
    } else {
        lemma_count_none_set(s.drop_last(), i, v);
        assert(s2.drop_last() =~= s.drop_last().update(i, Some(v)));
    }
}

/// Assigning system `c` to unassigned nodes leaves the nodes of systems up
/// to `c` before it unchanged.
proof fn lemma_earlier_keep(old: Seq<Option<usize>>, new: Seq<Option<usize>>, c: int)
    requires
        0 <= c <= usize::MAX,
        old.len() == new.len(),
        forall|x: int| 0 <= x < old.len() && (#[trigger] old[x]) is Some ==> new[x] == old[x],
        forall|x: int| 0 <= x < old.len() && (#[trigger] new[x]) is Some && old[x] is None ==> new[x] == Some(c as usize),
    ensures
        forall|d: int| d <= c ==> #[trigger] earlier(new, d) == earlier(old, d),
{
    assert forall|d: int| d <= c implies #[trigger] earlier(new, d) == earlier(old, d) by {
        assert forall|x: int| earlier(new, d).contains(x) == earlier(old, d).contains(x) by {
            if 0 <= x < old.len() {
                if old[x] is Some {
                    assert(new[x] == old[x]);
                } else if new[x] is Some {
                    assert(new[x] == Some(c as usize));
                    assert(!earlier(new, d).contains(x) || x == 0);
                }
            }
        }
        assert(earlier(new, d) =~= earlier(old, d));
    }
}

/// State of the search that grows system `c` from its least node `r`.
pub open spec fn growing(
    elems: Seq<ElementTopology>,
    en: Seq<Vec<usize>>,
    cidx: Seq<Option<usize>>,
    stack: Seq<usize>,
    c: int,
    r: int,
    avoid: Set<int>,
) -> bool {
    let count = cidx.len();
    &&& avoid == earlier(cidx, c)
    &&& cidx[0] is None
    &&& forall|x: int| 0 <= x < count && (#[trigger] cidx[x]) is Some ==> cidx[x]->0 <= c
    &&& forall|x: int| 0 <= x < count && #[trigger] cidx[x] == Some(c as usize) ==> avoid_reach(elems, en, avoid, r, x)
    &&& forall|i: int| 0 <= i < stack.len() ==> (#[trigger] stack[i]) < count && cidx[stack[i] as int] == Some(c as usize)
    &&& forall|a: int, b: int|
        0 <= a < count && #[trigger] cidx[a] == Some(c as usize) && !stack.contains(a as usize) && #[trigger] m_edge(elems, en, a, b)
            && !avoid.contains(b) ==> 0 <= b < count && cidx[b] == Some(c as usize)
}

/// Assigns system `c` to every unassigned node that node `a` is coupled to,
/// and pushes those nodes.
fn visit_coupled(
    elems: &Vec<ElementTopology>,
    en: &Vec<Vec<usize>>,
    links: &Vec<Vec<NodeLink>>,
    a: usize,
    cidx: &mut Vec<Option<usize>>,
    stack: &mut Vec<usize>,
    c: usize,
    Ghost(r): Ghost<int>,
    Ghost(avoid): Ghost<Set<int>>,
)
    requires
        tables_ok(elems@, en@, old(cidx)@.len() as int, links@),
        a < old(cidx)@.len(),
        old(cidx)@[a as int] == Some(c),
        growing(elems@, en@, old(cidx)@, old(stack)@.push(a), c as int, r, avoid),
    ensures
        final(cidx)@.len() == old(cidx)@.len(),
        forall|x: int| 0 <= x < old(cidx)@.len() && (#[trigger] old(cidx)@[x]) is Some ==> final(cidx)@[x] == old(cidx)@[x],
        forall|x: int| 0 <= x < old(cidx)@.len() && (#[trigger] final(cidx)@[x]) is Some && old(cidx)@[x] is None ==> final(cidx)@[x] == Some(c),
        growing(elems@, en@, final(cidx)@, final(stack)@, c as int, r, avoid),
        final(stack)@.len() >= old(stack)@.len(),
        count_none(final(cidx)@) + final(stack)@.len() == count_none(old(cidx)@) + old(stack)@.len(),
{
    let ghost es = elems@;
    let ghost enr = en@;
    let ghost cx0 = cidx@;
    let ghost s0 = stack@;
    let count = cidx.len();
    let ls = &links[a];
    let nl = ls.len();
    let mut i: usize = 0;
    while i < nl
        invariant
            es == elems@,
            enr == en@,
            tables_ok(es, enr, count as int, links@),
            count == cidx@.len(),
            count == cx0.len(),
            a < count,
            cidx@[a as int] == Some(c),
            *ls == links@[a as int],
            nl == ls@.len(),
            i <= nl,
            avoid == earlier(cx0, c as int),
            forall|x: int| 0 <= x < count && (#[trigger] cx0[x]) is Some ==> cidx@[x] == cx0[x],
            forall|x: int| 0 <= x < count && (#[trigger] cidx@[x]) is Some && cx0[x] is None ==> cidx@[x] == Some(c),
            growing(es, enr, cidx@, s0.push(a) + stack@.skip(s0.len() as int), c as int, r, avoid),
            stack@.len() >= s0.len(),
            stack@.take(s0.len() as int) == s0,
            count_none(cidx@) + stack@.len() == count_none(cx0) + s0.len(),
            forall|i2: int, k: int|
                0 <= i2 < i && mconn_at(es, ls@[i2].elm as int, ls@[i2].post as int, k)
                    && !avoid.contains(#[trigger] enr[ls@[i2].elm as int]@[k] as int) ==> cidx@[enr[ls@[i2].elm as int]@[k] as int] == Some(c),
        decreases nl - i,
    {
        let link = ls[i];
        let e = link.elm;
        let p1 = link.post;
        proof {
            assert(ls@[i as int] == links@[a as int]@[i as int]);
            assert(is_slot(es, e as int, p1 as int));
            assert(es[e as int].wf());
        }
        let nc = en[e].len();
        let mut k: usize = 0;
        while k < nc
            invariant
                es == elems@,
                enr == en@,
                tables_ok(es, enr, count as int, links@),
                count == cidx@.len(),
                count == cx0.len(),
                a < count,
                cidx@[a as int] == Some(c),
                *ls == links@[a as int],
                nl == ls@.len(),
                i < nl,
                link == ls@[i as int],
                e == link.elm,
                p1 == link.post,
                is_slot(es, e as int, p1 as int),
                es[e as int].wf(),
                enr[e as int]@[p1 as int] == a,
                nc == es[e as int].node_count(),
                k <= nc,
                avoid == earlier(cx0, c as int),
                forall|x: int| 0 <= x < count && (#[trigger] cx0[x]) is Some ==> cidx@[x] == cx0[x],
                forall|x: int| 0 <= x < count && (#[trigger] cidx@[x]) is Some && cx0[x] is None ==> cidx@[x] == Some(c),
                growing(es, enr, cidx@, s0.push(a) + stack@.skip(s0.len() as int), c as int, r, avoid),
                stack@.len() >= s0.len(),
                stack@.take(s0.len() as int) == s0,
                count_none(cidx@) + stack@.len() == count_none(cx0) + s0.len(),
                forall|i2: int, k2: int|
                    0 <= i2 < i && mconn_at(es, ls@[i2].elm as int, ls@[i2].post as int, k2)
                        && !avoid.contains(#[trigger] enr[ls@[i2].elm as int]@[k2] as int) ==> cidx@[enr[ls@[i2].elm as int]@[k2] as int] == Some(c),
                forall|k2: int|
                    0 <= k2 < k && mconn_at(es, e as int, p1 as int, k2) && !avoid.contains(#[trigger] enr[e as int]@[k2] as int)
                        ==> cidx@[enr[e as int]@[k2] as int] == Some(c),
            decreases nc - k,
        {
            if k != p1 && elems[e].matrix_connection[p1][k] {
                proof {
                    assert(is_slot(es, e as int, k as int));
                }
                let kn = en[e][k];
                if kn != 0 {
                    if cidx[kn].is_none() {
                        let ghost cx1 = cidx@;
                        let ghost st1 = stack@;
                        proof {
                            assert(mconn_at(es, e as int, p1 as int, k as int));
                            assert(m_edge(es, enr, a as int, kn as int));
                            lemma_count_none_set(cx1, kn as int, c);
                            assert(!avoid.contains(kn as int));
                        }
                        cidx.set(kn, Some(c));
                        stack.push(kn);
                        proof {
                            lemma_growing_push(es, enr, cx1, cidx@, s0.push(a) + st1.skip(s0.len() as int), c as int, r, avoid, a as int, kn as int);
                            assert(stack@.take(s0.len() as int) =~= s0) by {
                                assert forall|j: int| 0 <= j < s0.len() implies stack@[j] == s0[j] by {
                                    assert(st1.take(s0.len() as int)[j] == s0[j]);
                                }
                            }
                            assert(s0.push(a) + stack@.skip(s0.len() as int) =~= (s0.push(a) + st1.skip(s0.len() as int)).push(kn));
                        }
                    }
                }
            }
            k = k + 1;
        }
        i = i + 1;
    }
    proof {
        let fin = s0.push(a) + stack@.skip(s0.len() as int);
        assert(stack@ =~= s0 + stack@.skip(s0.len() as int)) by {
            assert forall|j: int| 0 <= j < s0.len() implies stack@[j] == s0[j] by {
                assert(stack@.take(s0.len() as int)[j] == s0[j]);
            }
        }
        assert forall|x: int, b: int|
            0 <= x < count && #[trigger] cidx@[x] == Some(c) && !stack@.contains(x as usize) && #[trigger] m_edge(es, enr, x, b)
                && !avoid.contains(b) implies 0 <= b < count && cidx@[b] == Some(c) by {
            if x == a {
                let (e2, q1, k2) = choose|e2: int, q1: int, k2: int|
                    #![trigger enr[e2]@[q1], enr[e2]@[k2]]
                    mconn_at(es, e2, q1, k2) && enr[e2]@[q1] == x && enr[e2]@[k2] == b;
                assert(linked(links@[enr[e2]@[q1] as int]@, e2, q1));
                let i2 = choose|i2: int| 0 <= i2 < ls@.len() && ls@[i2].elm == e2 && ls@[i2].post == q1;
                assert(is_slot(es, e2, k2));
            } else {
                if fin.contains(x as usize) {
                    let j = choose|j: int| 0 <= j < fin.len() && fin[j] == x as usize;
                    if j < s0.len() {
                        assert(fin[j] == s0[j]);
                        assert(stack@[j] == s0[j]);
                    } else if j == s0.len() {
                        assert(fin[j] == a);
                    } else {
                        assert(fin[j] == stack@[j - 1]);
                    }
                }
            }
        }
        assert forall|i: int| 0 <= i < stack@.len() implies (#[trigger] stack@[i]) < count && cidx@[stack@[i] as int] == Some(c) by {
            if i < s0.len() {
                assert(fin[i] == stack@[i]);
            } else {
                assert(fin[i + 1] == stack@[i]);
            }
        }
    }
}

/// Pushing a newly assigned node `kn` that `a` is coupled to keeps the
/// search state.
proof fn lemma_growing_push(
    elems: Seq<ElementTopology>,
    en: Seq<Vec<usize>>,
    cx1: Seq<Option<usize>>,
    cx2: Seq<Option<usize>>,
    st: Seq<usize>,
    c: int,
    r: int,
    avoid: Set<int>,
    a: int,
    kn: int,
)
    requires
        growing(elems, en, cx1, st, c, r, avoid),
        0 <= a < cx1.len(),
        cx1[a] == Some(c as usize),
        0 <= kn < cx1.len(),
        cx1[kn] is None,
        kn != 0,
        m_edge(elems, en, a, kn),
        cx2 == cx1.update(kn, Some(c as usize)),
        0 <= c <= usize::MAX,
    ensures
        growing(elems, en, cx2, st.push(kn as usize), c, r, avoid),
{
    let count = cx1.len();
    lemma_earlier_keep(cx1, cx2, c);
    assert(avoid_reach(elems, en, avoid, r, a));
    assert(!avoid.contains(kn));
    assert forall|t: Set<int>| #[trigger] avoid_closed(elems, en, t, avoid) && t.contains(r) implies t.contains(kn) by {
        assert(t.contains(a));
    }
    let st2 = st.push(kn as usize);
    assert forall|i: int| 0 <= i < st2.len() implies (#[trigger] st2[i]) < count && cx2[st2[i] as int] == Some(c as usize) by {
        if i < st.len() {
            assert(st2[i] == st[i]);
        }
    }
    assert forall|x: int, b: int|
        0 <= x < count && #[trigger] cx2[x] == Some(c as usize) && !st2.contains(x as usize) && #[trigger] m_edge(elems, en, x, b)
            && !avoid.contains(b) implies 0 <= b < count && cx2[b] == Some(c as usize) by {
        if x != kn {
            if st.contains(x as usize) {
                let j = choose|j: int| 0 <= j < st.len() && st[j] == x as usize;
                assert(st2[j] == st[j]);
            }
        } else {
            assert(st2[st.len() as int] == kn as usize);
        }
    }
}

/// Grows system `c` from the nodes on the stack until the stack is empty.
fn grow_system(
    elems: &Vec<ElementTopology>,
    en: &Vec<Vec<usize>>,
    links: &Vec<Vec<NodeLink>>,
    cidx: &mut Vec<Option<usize>>,
    stack: &mut Vec<usize>,
    c: usize,
    Ghost(r): Ghost<int>,
    Ghost(avoid): Ghost<Set<int>>,
)
    requires
        tables_ok(elems@, en@, old(cidx)@.len() as int, links@),
        growing(elems@, en@, old(cidx)@, old(stack)@, c as int, r, avoid),
    ensures
        final(cidx)@.len() == old(cidx)@.len(),
        forall|x: int| 0 <= x < old(cidx)@.len() && (#[trigger] old(cidx)@[x]) is Some ==> final(cidx)@[x] == old(cidx)@[x],
        forall|x: int| 0 <= x < old(cidx)@.len() && (#[trigger] final(cidx)@[x]) is Some && old(cidx)@[x] is None ==> final(cidx)@[x] == Some(c),
        growing(elems@, en@, final(cidx)@, final(stack)@, c as int, r, avoid),
        final(stack)@.len() == 0,
{
    let ghost cx0 = cidx@;
    let ghost count = cidx@.len();
    while stack.len() > 0
        invariant
            tables_ok(elems@, en@, count as int, links@),
            cidx@.len() == count,
            forall|x: int| 0 <= x < count && (#[trigger] cx0[x]) is Some ==> cidx@[x] == cx0[x],
            forall|x: int| 0 <= x < count && (#[trigger] cidx@[x]) is Some && cx0[x] is None ==> cidx@[x] == Some(c),
            growing(elems@, en@, cidx@, stack@, c as int, r, avoid),
        decreases 2 * count_none(cidx@) + stack@.len(),
    {
        let ghost cx1 = cidx@;
        let ghost st1 = stack@;
        let a = stack.pop().unwrap();
        proof {
            assert(st1.last() == a);
            assert(stack@ == st1.drop_last());
            assert(stack@.push(a) =~= st1);
            assert(cidx@[a as int] == Some(c));
        }
        visit_coupled(elems, en, links, a, cidx, stack, c, Ghost(r), Ghost(avoid));
        proof {
            assert forall|x: int| 0 <= x < count && (#[trigger] cx0[x]) is Some implies cidx@[x] == cx0[x] by {
                assert(cx1[x] == cx0[x]);
            }
            assert forall|x: int| 0 <= x < count && (#[trigger] cidx@[x]) is Some && cx0[x] is None implies cidx@[x] == Some(c) by {
                if cx1[x] is Some {
                    assert(cidx@[x] == cx1[x]);
                }
            }
        }
    }
}


proof fn lemma_rep_unique(cidx: Seq<Option<usize>>, d: int, r1: int, r2: int)
    requires
        is_rep(cidx, d, r1),
        is_rep(cidx, d, r2),
    ensures
        r1 == r2,
{
    if r1 < r2 {
        assert(cidx[r1] != Some(d as usize));
    } else if r2 < r1 {
        assert(cidx[r2] != Some(d as usize));
    }
}

/// State of the numbering of equation systems before node `i`, with `reps`
/// the least node of each system found so far.
pub open spec fn systems_so_far(
    elems: Seq<ElementTopology>,
    en: Seq<Vec<usize>>,
    cidx: Seq<Option<usize>>,
    i: int,
    reps: Seq<int>,
) -> bool {
    let count = cidx.len();
    let c = reps.len() as int;
    &&& cidx[0] is None
    &&& 1 <= i <= count
    &&& forall|x: int| 1 <= x < i ==> (#[trigger] cidx[x]) is Some
    &&& forall|x: int| 0 <= x < count && (#[trigger] cidx[x]) is Some ==> cidx[x]->0 < c
    &&& forall|d: int| 0 <= d < c ==> (#[trigger] reps[d]) < i && is_rep(cidx, d, reps[d])
    &&& forall|d1: int, d2: int| 0 <= d1 < d2 < c ==> #[trigger] reps[d1] < #[trigger] reps[d2]
    &&& forall|x: int|
        0 <= x < count && (#[trigger] cidx[x]) is Some ==> avoid_reach(
            elems,
            en,
            earlier(cidx, cidx[x]->0 as int),
            reps[cidx[x]->0 as int],
            x,
        )
    &&& forall|d: int, n: int|
        0 <= d < c && #[trigger] avoid_reach(elems, en, earlier(cidx, d), reps[d], n) ==> 0 <= n < count && cidx[n]
            == Some(d as usize)
}

/// Splits the nodes other than 0 into independent equation systems.
pub(crate) fn calculate_closures(elems: &Vec<ElementTopology>, en: &Vec<Vec<usize>>, links: &Vec<Vec<NodeLink>>, count: usize) -> (r: (
    Vec<Option<usize>>,
    usize,
))
    requires
        tables_ok(elems@, en@, count as int, links@),
        count >= 1,
    ensures
        closures_ok(elems@, en@, r.0@, r.1 as int),
        r.0@.len() == count,
{
    let ghost es = elems@;
    let ghost enr = en@;
    let mut cidx: Vec<Option<usize>> = Vec::new();
    let mut j: usize = 0;
    while j < count
        invariant
            cidx@.len() == j,
            j <= count,
            forall|x: int| 0 <= x < j ==> (#[trigger] cidx@[x]) is None,
        decreases count - j,
    {
        cidx.push(None);
        j = j + 1;
    }
    let ghost mut reps: Seq<int> = Seq::empty();
    let mut c: usize = 0;
    let mut i: usize = 1;
    while i < count
        invariant
            es == elems@,
            enr == en@,
            tables_ok(es, enr, count as int, links@),
            cidx@.len() == count,
            c == reps.len(),
            c <= i,
            systems_so_far(es, enr, cidx@, i as int, reps),
        decreases count - i,
    {
        if cidx[i].is_none() {
            let ghost cx0 = cidx@;
            cidx.set(i, Some(c));
            let ghost avoid = earlier(cidx@, c as int);
            let mut stack: Vec<usize> = Vec::new();
            stack.push(i);
            proof {
                lemma_earlier_keep(cx0, cidx@, c as int);
                assert forall|x: int| 0 <= x < count && #[trigger] cidx@[x] == Some(c) implies avoid_reach(es, enr, avoid, i as int, x) by {
                    if x != i {
                        assert(cx0[x] is Some);
                    }
                }
                assert forall|i2: int| 0 <= i2 < stack@.len() implies (#[trigger] stack@[i2]) < count && cidx@[stack@[i2] as int] == Some(c) by {
                    assert(stack@[i2] == i);
                }
                assert forall|a: int, b: int|
                    0 <= a < count && #[trigger] cidx@[a] == Some(c) && !stack@.contains(a as usize) && #[trigger] m_edge(es, enr, a, b)
                        && !avoid.contains(b) implies 0 <= b < count && cidx@[b] == Some(c) by {
                    if a == i {
                        assert(stack@[0] == i);
                    } else {
                        assert(cx0[a] is Some);
                    }
                }
            }
            let ghost cx1 = cidx@;
            grow_system(elems, en, links, &mut cidx, &mut stack, c, Ghost(i as int), Ghost(avoid));
            let ghost reps0 = reps;
            proof {
                reps = reps.push(i as int);
                let cx2 = cidx@;
                lemma_earlier_keep(cx0, cx2, c as int);
                assert forall|x: int| 0 <= x < count && (#[trigger] cx0[x]) is Some implies cx2[x] == cx0[x] by {
                    assert(cx1[x] == cx0[x]);
                }
                assert forall|x: int| 1 <= x < i + 1 implies (#[trigger] cx2[x]) is Some by {
                    if x < i {
                        assert(cx0[x] is Some);
                    } else {
                        assert(cx1[x] is Some);
                    }
                }
                assert forall|x: int| 0 <= x < count && (#[trigger] cx2[x]) is Some implies cx2[x]->0 < c + 1 by {
                    if cx0[x] is Some {
                    } else if cx1[x] is Some {
                    }
                }
                assert forall|d: int| 0 <= d < c + 1 implies (#[trigger] reps[d]) < i + 1 && is_rep(cx2, d, reps[d]) by {
                    if d < c {
                        assert(reps[d] == reps0[d]);
                        assert(is_rep(cx0, d, reps0[d]));
                        assert forall|y: int| 1 <= y < reps[d] implies cx2[y] != Some(d as usize) by {
                            assert(cx0[y] is Some);
                        }
                    } else {
                        assert(reps[d] == i);
                        assert forall|y: int| 1 <= y < i implies cx2[y] != Some(d as usize) by {
                            assert(cx0[y] is Some);
                        }
                    }
                }
                assert forall|d1: int, d2: int| 0 <= d1 < d2 < c + 1 implies #[trigger] reps[d1] < #[trigger] reps[d2] by {
                    assert(reps[d1] == reps0[d1]);
                    if d2 < c {
                        assert(reps[d2] == reps0[d2]);
                    }
                }
                assert forall|x: int|
                    0 <= x < count && (#[trigger] cx2[x]) is Some implies avoid_reach(
                        es,
                        enr,
                        earlier(cx2, cx2[x]->0 as int),
                        reps[cx2[x]->0 as int],
                        x,
                    ) by {
                    if cx0[x] is Some {
                        let d = cx0[x]->0 as int;
                        assert(reps[d] == reps0[d]);
                        assert(earlier(cx2, d) == earlier(cx0, d));
                    } else {
                        assert(cx2[x] == Some(c));
                        assert(reps[c as int] == i);
                    }
                }
                assert forall|d: int, n: int|
                    0 <= d < c + 1 && #[trigger] avoid_reach(es, enr, earlier(cx2, d), reps[d], n) implies 0 <= n < count && cx2[n]
                        == Some(d as usize) by {
                    assert(earlier(cx2, d) == earlier(cx0, d));
                    if d < c {
                        assert(reps[d] == reps0[d]);
                        assert(avoid_reach(es, enr, earlier(cx0, d), reps0[d], n));
                    } else {
                        assert(reps[d] == i);
                        let t = Set::new(|x: int| 0 <= x < count && cx2[x] == Some(c));
                        assert(avoid_closed(es, enr, t, avoid));
                        assert(t.contains(i as int));
                        assert(avoid == earlier(cx2, d));
                    }
                }
            }
            c = c + 1;
        } else {
            proof {
                assert forall|x: int| 1 <= x < i + 1 implies (#[trigger] cidx@[x]) is Some by {
                }
            }
        }
        i = i + 1;
    }
    let nclos = if c == 0 { 1 } else { c };
    proof {
        let cx = cidx@;
        if i == 1 {
            assert(count == 1);
        }
        assert forall|x: int| 1 <= x < count implies (#[trigger] cx[x]) is Some && cx[x]->0 < nclos by {
        }
        assert forall|x: int| 1 <= x < count && (#[trigger] cx[x]) is Some implies x >= reps[cx[x]->0 as int] by {
            let d = cx[x]->0 as int;
            assert(is_rep(cx, d, reps[d]));
        }
        if count > 1 {
            assert(cx[1] is Some);
            assert(c >= 1);
            assert forall|d: int| 0 <= d < nclos implies #[trigger] has_rep(cx, d) by {
                assert(is_rep(cx, d, reps[d]));
            }
        }
        assert forall|x: int, d: int|
            1 <= x < count && 0 <= d < cx[x]->0 implies #[trigger] used_below(cx, x, d) by {
            let d2 = cx[x]->0 as int;
            assert(reps[d] < reps[d2]);
            assert(is_rep(cx, d, reps[d]));
            assert(x >= reps[d2]);
        }
        assert forall|x: int, r: int|
            1 <= x < count && #[trigger] is_rep(cx, cx[x]->0 as int, r) implies avoid_reach(
                es,
                enr,
                earlier(cx, cx[x]->0 as int),
                r,
                x,
            ) by {
            let d = cx[x]->0 as int;
            assert(is_rep(cx, d, reps[d]));
            lemma_rep_unique(cx, d, r, reps[d]);
        }
        assert forall|d: int, r: int, n: int|
            #[trigger] is_rep(cx, d, r) && #[trigger] avoid_reach(es, enr, earlier(cx, d), r, n) implies 0 <= n < count
                && cx[n] == Some(d as usize) by {
            assert(cx[r] is Some);
            assert(d < c);
            assert(is_rep(cx, d, reps[d]));
            lemma_rep_unique(cx, d, r, reps[d]);
        }
    }
    (cidx, nclos)
}

/// Couplings, and so reach, depend only on the nodes of the terminals.
proof fn lemma_avoid_reach_same_nodes(
    elems: Seq<ElementTopology>,
    en1: Seq<Vec<usize>>,
    en2: Seq<Vec<usize>>,
    avoid: Set<int>,
    r: int,
    n: int,
)
    requires
        en1.len() == elems.len(),
        en2.len() == elems.len(),
        forall|e: int| 0 <= e < elems.len() ==> (#[trigger] en1[e])@ == en2[e]@,
    ensures
        avoid_reach(elems, en1, avoid, r, n) == avoid_reach(elems, en2, avoid, r, n),
{
    assert forall|a: int, b: int| #[trigger] m_edge(elems, en1, a, b) == m_edge(elems, en2, a, b) by {
        if m_edge(elems, en1, a, b) {
            let (e, p1, k) = choose|e: int, p1: int, k: int|
                mconn_at(elems, e, p1, k) && en1[e]@[p1] == a && en1[e]@[k] == b;
            assert(en1[e]@ == en2[e]@);
            assert(en2[e]@[p1] == a && en2[e]@[k] == b);
        }
        if m_edge(elems, en2, a, b) {
            let (e, p1, k) = choose|e: int, p1: int, k: int|
                mconn_at(elems, e, p1, k) && en2[e]@[p1] == a && en2[e]@[k] == b;
            assert(en1[e]@ == en2[e]@);
            assert(en1[e]@[p1] == a && en1[e]@[k] == b);
        }
    }
    assert forall|t: Set<int>| #[trigger] avoid_closed(elems, en1, t, avoid) == avoid_closed(elems, en2, t, avoid) by {
        if avoid_closed(elems, en1, t, avoid) {
            assert forall|a: int, b: int|
                #[trigger] t.contains(a) && #[trigger] m_edge(elems, en2, a, b) && !avoid.contains(b) implies t.contains(b) by {
                assert(m_edge(elems, en1, a, b));
            }
        }
        if avoid_closed(elems, en2, t, avoid) {
            assert forall|a: int, b: int|
                #[trigger] t.contains(a) && #[trigger] m_edge(elems, en1, a, b) && !avoid.contains(b) implies t.contains(b) by {
                assert(m_edge(elems, en2, a, b));
            }
        }
    }
    if avoid_reach(elems, en1, avoid, r, n) {
        assert forall|t: Set<int>| #[trigger] avoid_closed(elems, en2, t, avoid) && t.contains(r) implies t.contains(n) by {
            assert(avoid_closed(elems, en1, t, avoid));
        }
    }
    if avoid_reach(elems, en2, avoid, r, n) {
        assert forall|t: Set<int>| #[trigger] avoid_closed(elems, en1, t, avoid) && t.contains(r) implies t.contains(n) by {
            assert(avoid_closed(elems, en2, t, avoid));
        }
    }
}

/// The least node of a system is the least node outside node 0 and the
/// earlier systems.
proof fn lemma_rep_least_outside(
    elems: Seq<ElementTopology>,
    en: Seq<Vec<usize>>,
    cidx: Seq<Option<usize>>,
    nclos: int,
    d: int,
    r: int,
)
    requires
        closures_ok(elems, en, cidx, nclos),
        is_rep(cidx, d, r),
    ensures
        !earlier(cidx, d).contains(r),
        forall|z: int| 1 <= z < r ==> #[trigger] earlier(cidx, d).contains(z),
{
    assert forall|z: int| 1 <= z < r implies #[trigger] earlier(cidx, d).contains(z) by {
        let v = cidx[z]->0 as int;
        assert(cidx[z] is Some);
        assert(cidx[z] != Some(d as usize));
        if v > d {
            assert(used_below(cidx, z, d));
            let y = choose|y: int| 1 <= y < z && #[trigger] cidx[y] == Some(d as usize);
            assert(cidx[y] != Some(d as usize));
        }
    }
}

/// Node `x` is in system `e`.
spec fn in_system(cidx: Seq<Option<usize>>, x: int, e: int) -> bool {
    cidx[x] == Some(e as usize)
}

/// Two system assignments that meet `closures_ok` for numberings with the
/// same nodes put the same nodes in each system numbered below `d`.
proof fn lemma_systems_agree_below(
    elems: Seq<ElementTopology>,
    en1: Seq<Vec<usize>>,
    en2: Seq<Vec<usize>>,
    c1: Seq<Option<usize>>,
    n1: int,
    c2: Seq<Option<usize>>,
    n2: int,
    d: int,
)
    requires
        en1.len() == elems.len(),
        en2.len() == elems.len(),
        forall|e: int| 0 <= e < elems.len() ==> (#[trigger] en1[e])@ == en2[e]@,
        closures_ok(elems, en1, c1, n1),
        closures_ok(elems, en2, c2, n2),
        c1.len() == c2.len(),
        c1.len() > 1,
        0 <= d <= n1,
        d <= n2,
    ensures
        forall|e: int, x: int|
            0 <= e < d && 1 <= x < c1.len() ==> (#[trigger] in_system(c1, x, e) <==> in_system(c2, x, e)),
    decreases d,
{
    if d > 0 {
        lemma_systems_agree_below(elems, en1, en2, c1, n1, c2, n2, d - 1);
        let e = d - 1;
        let count = c1.len() as int;
        assert forall|x: int| #[trigger] earlier(c1, e).contains(x) == earlier(c2, e).contains(x) by {
            if 1 <= x < count {
                let v1 = c1[x]->0 as int;
                let v2 = c2[x]->0 as int;
                assert(c1[x] is Some && c2[x] is Some);
                if v1 < e {
                    assert(in_system(c1, x, v1));
                }
                if v2 < e {
                    assert(in_system(c1, x, v2) <==> in_system(c2, x, v2));
                }
            }
        }
        assert(earlier(c1, e) =~= earlier(c2, e));
        assert(has_rep(c1, e));
        assert(has_rep(c2, e));
        let r1 = choose|r: int| #[trigger] is_rep(c1, e, r);
        let r2 = choose|r: int| #[trigger] is_rep(c2, e, r);
        lemma_rep_least_outside(elems, en1, c1, n1, e, r1);
        lemma_rep_least_outside(elems, en2, c2, n2, e, r2);
        if r1 < r2 {
            assert(earlier(c2, e).contains(r1));
        }
        if r2 < r1 {
            assert(earlier(c1, e).contains(r2));
        }
        assert(r1 == r2);
        assert forall|x: int| 1 <= x < count implies (#[trigger] in_system(c1, x, e) <==> in_system(c2, x, e)) by {
            if c1[x] == Some(e as usize) {
                assert(is_rep(c1, c1[x]->0 as int, r1));
                assert(avoid_reach(elems, en1, earlier(c1, c1[x]->0 as int), r1, x));
                lemma_avoid_reach_same_nodes(elems, en1, en2, earlier(c1, e), r1, x);
                assert(avoid_reach(elems, en2, earlier(c2, e), r2, x));
            }
            if c2[x] == Some(e as usize) {
                assert(is_rep(c2, c2[x]->0 as int, r2));
                assert(avoid_reach(elems, en2, earlier(c2, c2[x]->0 as int), r2, x));
                lemma_avoid_reach_same_nodes(elems, en1, en2, earlier(c1, e), r1, x);
                assert(avoid_reach(elems, en1, earlier(c1, e), r1, x));
            }
        }
    }
}

/// The equation systems are determined by the nodes of the terminals: two
/// assignments that meet `closures_ok` for numberings with the same nodes
/// are equal and have as many systems.
pub proof fn lemma_systems_unique(
    elems: Seq<ElementTopology>,
    en1: Seq<Vec<usize>>,
    en2: Seq<Vec<usize>>,
    c1: Seq<Option<usize>>,
    n1: int,
    c2: Seq<Option<usize>>,
    n2: int,
)
    requires
        en1.len() == elems.len(),
        en2.len() == elems.len(),
        forall|e: int| 0 <= e < elems.len() ==> (#[trigger] en1[e])@ == en2[e]@,
        closures_ok(elems, en1, c1, n1),
        closures_ok(elems, en2, c2, n2),
        c1.len() == c2.len(),
    ensures
        c1 == c2,
        n1 == n2,
{
    let count = c1.len() as int;
    if count > 1 {
        let m = if n1 < n2 { n1 } else { n2 };
        lemma_systems_agree_below(elems, en1, en2, c1, n1, c2, n2, m);
        if n1 < n2 {
            assert(has_rep(c2, n1));
            let r = choose|r: int| #[trigger] is_rep(c2, n1, r);
            let v = c1[r]->0 as int;
            assert(in_system(c1, r, v));
        }
        if n2 < n1 {
            assert(has_rep(c1, n2));
            let r = choose|r: int| #[trigger] is_rep(c1, n2, r);
            let v = c2[r]->0 as int;
            assert(in_system(c1, r, v) <==> in_system(c2, r, v));
        }
        assert forall|x: int| 0 <= x < count implies c1[x] == c2[x] by {
            if x >= 1 {
                let v = c1[x]->0 as int;
                assert(in_system(c1, x, v));
            }
        }
    }
    assert(c1 =~= c2);
}

/// Two lists of terminals in terminal order with the same members are equal.
proof fn lemma_links_sorted_same(s1: Seq<NodeLink>, s2: Seq<NodeLink>)
    requires
        forall|j1: int, j2: int| 0 <= j1 < j2 < s1.len() ==> link_before(#[trigger] s1[j1], #[trigger] s1[j2]),
        forall|j1: int, j2: int| 0 <= j1 < j2 < s2.len() ==> link_before(#[trigger] s2[j1], #[trigger] s2[j2]),
        forall|v: NodeLink| s1.contains(v) <==> s2.contains(v),
    ensures
        s1 == s2,
    decreases s1.len(),
{
    if s1.len() == 0 {
        if s2.len() > 0 {
            assert(s2.contains(s2[0]));
        }
        assert(s1 =~= s2);
    } else {
        assert(s1.contains(s1[0]));
        assert(s2.len() > 0);
        assert(s2.contains(s2[0]));
        let a = s1[0];
        let b = s2[0];
        let ja = choose|j: int| 0 <= j < s2.len() && s2[j] == a;
        let jb = choose|j: int| 0 <= j < s1.len() && s1[j] == b;
        if ja > 0 {
            assert(link_before(s2[0], s2[ja]));
        }
        if jb > 0 {
            assert(link_before(s1[0], s1[jb]));
        }
        assert(a == b);
        let t1 = s1.drop_first();
        let t2 = s2.drop_first();
        assert forall|v: NodeLink| t1.contains(v) <==> t2.contains(v) by {
            if t1.contains(v) {
                let i = choose|i: int| 0 <= i < t1.len() && t1[i] == v;
                assert(link_before(s1[0], s1[i + 1]));
                assert(s1.contains(v));
                let k = choose|k: int| 0 <= k < s2.len() && s2[k] == v;
                assert(k != 0);
                assert(t2[k - 1] == v);
            }
            if t2.contains(v) {
                let i = choose|i: int| 0 <= i < t2.len() && t2[i] == v;
                assert(link_before(s2[0], s2[i + 1]));
                assert(s2.contains(v));
                let k = choose|k: int| 0 <= k < s1.len() && s1[k] == v;
                assert(k != 0);
                assert(t1[k - 1] == v);
            }
        }
        assert forall|j1: int, j2: int| 0 <= j1 < j2 < t1.len() implies link_before(#[trigger] t1[j1], #[trigger] t1[j2]) by {
            assert(link_before(s1[j1 + 1], s1[j2 + 1]));
        }
        assert forall|j1: int, j2: int| 0 <= j1 < j2 < t2.len() implies link_before(#[trigger] t2[j1], #[trigger] t2[j2]) by {
            assert(link_before(s2[j1 + 1], s2[j2 + 1]));
        }
        lemma_links_sorted_same(t1, t2);
        assert(s1 =~= seq![a] + t1);
        assert(s2 =~= seq![b] + t2);
    }
}

/// The links of every node are determined by the nodes of the terminals.
pub proof fn lemma_links_unique(
    elems: Seq<ElementTopology>,
    en1: Seq<Vec<usize>>,
    en2: Seq<Vec<usize>>,
    count: int,
    l1: Seq<Vec<NodeLink>>,
    l2: Seq<Vec<NodeLink>>,
)
    requires
        en1.len() == elems.len(),
        en2.len() == elems.len(),
        forall|e: int| 0 <= e < elems.len() ==> (#[trigger] en1[e])@ == en2[e]@,
        links_of(elems, en1, count, l1),
        links_of(elems, en2, count, l2),
    ensures
        forall|n: int| 0 <= n < count ==> (#[trigger] l1[n])@ == l2[n]@,
{
    assert forall|n: int| 0 <= n < count implies (#[trigger] l1[n])@ == l2[n]@ by {
        let s1 = l1[n]@;
        let s2 = l2[n]@;
        assert forall|v: NodeLink| s1.contains(v) <==> s2.contains(v) by {
            if s1.contains(v) {
                let i = choose|i: int| 0 <= i < s1.len() && s1[i] == v;
                assert(l1[n]@[i] == v);
                let e = v.elm as int;
                let k = v.post as int;
                assert(is_slot(elems, e, k) && en1[e]@[k] == n);
                assert(en1[e]@ == en2[e]@);
                assert(linked(l2[en2[e]@[k] as int]@, e, k));
                let j = choose|j: int| 0 <= j < s2.len() && s2[j].elm == e && s2[j].post == k;
                assert(s2[j] == v);
            }
            if s2.contains(v) {
                let i = choose|i: int| 0 <= i < s2.len() && s2[i] == v;
                assert(l2[n]@[i] == v);
                let e = v.elm as int;
                let k = v.post as int;
                assert(is_slot(elems, e, k) && en2[e]@[k] == n);
                assert(en1[e]@ == en2[e]@);
                assert(linked(l1[en1[e]@[k] as int]@, e, k));
                let j = choose|j: int| 0 <= j < s1.len() && s1[j].elm == e && s1[j].post == k;
                assert(s1[j] == v);
            }
        }
        assert forall|j1: int, j2: int| 0 <= j1 < j2 < s1.len() implies link_before(#[trigger] s1[j1], #[trigger] s1[j2]) by {
            assert(link_before(l1[n]@[j1], l1[n]@[j2]));
        }
        assert forall|j1: int, j2: int| 0 <= j1 < j2 < s2.len() implies link_before(#[trigger] s2[j1], #[trigger] s2[j2]) by {
            assert(link_before(l2[n]@[j1], l2[n]@[j2]));
        }
        lemma_links_sorted_same(s1, s2);
    }
}

} // verus!
