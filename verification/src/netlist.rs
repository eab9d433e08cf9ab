//! The connectivity an element list describes: which posts are joined by
//! wires, labels and grounds, and which node becomes ground.
use vstd::prelude::*;
use crate::union_find::{Point, UnionFind, joined, with_point};

verus! {

/// What circuit analysis needs to know of one element: its posts, how they
/// are joined to other points, and how its terminals couple electrically.
pub struct ElementTopology {
    /// Terminal positions (the element's posts), in post order.
    pub posts: Vec<Point>,
    /// The element is a ground symbol.
    pub is_ground: bool,
    /// The element is an independent voltage source (a fallback ground reference).
    pub is_independent_voltage: bool,
    /// The element shorts its posts together (a wire or closed switch).
    pub is_removable_wire: bool,
    /// For each post, the point it is shorted to, if any.
    pub connected_posts: Vec<Option<Point>>,
    /// Net label: posts of elements with the same label are one node.
    pub net_name: Option<String>,
    /// Number of internal nodes after the posts.
    pub internal_nodes: usize,
    /// For each post, whether it has a path to ground inside the element.
    pub ground_connection: Vec<bool>,
    /// `connection[a][b]`: terminal `a` (post or internal) conducts to post `b`.
    pub connection: Vec<Vec<bool>>,
    /// `matrix_connection[a][b]`: terminals `a` and `b` share one equation system.
    pub matrix_connection: Vec<Vec<bool>>,
    /// The element is nonlinear.
    pub non_linear: bool,
    /// Terminals of each voltage source of the element: `None` is ground,
    /// `Some(k)` is the element's terminal `k` (post or internal node).
    pub voltage_sources: Vec<(Option<usize>, Option<usize>)>,
}

impl ElementTopology {
    /// Number of terminals: posts, then internal nodes.
    pub open spec fn node_count(&self) -> nat {
        self.posts@.len() + self.internal_nodes as nat
    }

    /// The per-post and per-terminal tables have the sizes their indices need.
    pub open spec fn wf(&self) -> bool {
        let np = self.posts@.len();
        let nc = self.node_count();
        &&& self.connected_posts@.len() == np
        &&& self.ground_connection@.len() == np
        &&& self.connection@.len() == nc
        &&& forall|a: int| 0 <= a < nc ==> #[trigger] self.connection@[a]@.len() == np
        &&& self.matrix_connection@.len() == nc
        &&& forall|a: int| 0 <= a < nc ==> #[trigger] self.matrix_connection@[a]@.len() == nc
        &&& forall|k: int|
            0 <= k < self.voltage_sources@.len() ==> terminal_ok(
                #[trigger] self.voltage_sources@[k],
                nc,
            )
    }
}

/// Both terminals of a voltage source name ground or a terminal below `nc`.
pub open spec fn terminal_ok(t: (Option<usize>, Option<usize>), nc: nat) -> bool {
    &&& (t.0 matches Some(k) ==> k < nc)
    &&& (t.1 matches Some(k) ==> k < nc)
}

/// Every element's tables have the sizes their indices need.
pub open spec fn elements_wf(elems: Seq<ElementTopology>) -> bool {
    forall|e: int| 0 <= e < elems.len() ==> #[trigger] elems[e].wf()
}

/// First post of element `e`.
pub open spec fn first_post(elems: Seq<ElementTopology>, e: int) -> Point {
    elems[e].posts@[0]
}

/// Element `e` is a ground with a post.
pub open spec fn grounded(elems: Seq<ElementTopology>, e: int) -> bool {
    elems[e].is_ground && elems[e].posts@.len() > 0
}

/// Element `e` carries a net label and has a post.
pub open spec fn named(elems: Seq<ElementTopology>, e: int) -> bool {
    elems[e].net_name is Some && elems[e].posts@.len() > 0
}

/// Net label of element `e`.
pub open spec fn name_of(elems: Seq<ElementTopology>, e: int) -> Seq<char> {
    elems[e].net_name.unwrap()@
}

/// Element `e` is an independent voltage source with a post.
pub open spec fn voltage_anchor(elems: Seq<ElementTopology>, e: int) -> bool {
    elems[e].is_independent_voltage && elems[e].posts@.len() > 0
}

/// A wire (a removable element that is not a ground) joins post `j` to the
/// point it names.
pub open spec fn wire_edge_at(elems: Seq<ElementTopology>, e: int, j: int) -> bool {
    &&& 0 <= e < elems.len()
    &&& 0 <= j < elems[e].posts@.len()
    &&& !elems[e].is_ground
    &&& elems[e].is_removable_wire
    &&& elems[e].connected_posts@[j] is Some
}

/// Some wire post at `p` is shorted to `q`.
pub open spec fn wire_edge(elems: Seq<ElementTopology>, p: Point, q: Point) -> bool {
    exists|e: int, j: int|
        #![trigger elems[e].posts@[j], elems[e].connected_posts@[j]]
        wire_edge_at(elems, e, j) && elems[e].posts@[j] == p && elems[e].connected_posts@[j]
            == Some(q)
}

/// Labelled elements with equal labels join their first posts.
pub open spec fn label_edge(elems: Seq<ElementTopology>, p: Point, q: Point) -> bool {
    exists|e1: int, e2: int|
        #![trigger first_post(elems, e1), first_post(elems, e2)]
        0 <= e1 < elems.len() && 0 <= e2 < elems.len() && named(elems, e1) && named(elems, e2)
            && name_of(elems, e1) == name_of(elems, e2) && p == first_post(elems, e1) && q
            == first_post(elems, e2)
}

/// All grounds are one node.
pub open spec fn ground_edge(elems: Seq<ElementTopology>, p: Point, q: Point) -> bool {
    exists|e1: int, e2: int|
        #![trigger first_post(elems, e1), first_post(elems, e2)]
        0 <= e1 < elems.len() && 0 <= e2 < elems.len() && grounded(elems, e1) && grounded(
            elems,
            e2,
        ) && p == first_post(elems, e1) && q == first_post(elems, e2)
}

/// The element list directly joins `p` and `q`.
pub open spec fn is_edge(elems: Seq<ElementTopology>, p: Point, q: Point) -> bool {
    wire_edge(elems, p, q) || label_edge(elems, p, q) || ground_edge(elems, p, q)
}

/// `f` gives directly joined points the same value.
pub open spec fn respects(elems: Seq<ElementTopology>, f: spec_fn(Point) -> int) -> bool {
    forall|p: Point, q: Point| #[trigger] is_edge(elems, p, q) ==> f(p) == f(q)
}

/// `p` and `q` are on one net: every labelling that agrees across direct
/// joins agrees on them (the equivalence generated by the joins).
pub open spec fn same_net(elems: Seq<ElementTopology>, p: Point, q: Point) -> bool {
    forall|f: spec_fn(Point) -> int| #[trigger] respects(elems, f) ==> f(p) == f(q)
}

/// Index of the first grounded element among the first `n`.
pub open spec fn first_ground_upto(elems: Seq<ElementTopology>, n: int) -> Option<int>
    decreases n,
{
    if n <= 0 {
        None
    } else {
        match first_ground_upto(elems, n - 1) {
            Some(e) => Some(e),
            None => if grounded(elems, n - 1) {
                Some(n - 1)
            } else {
                None
            },
        }
    }
}

/// Index of the first voltage anchor among the first `n`.
pub open spec fn first_voltage_upto(elems: Seq<ElementTopology>, n: int) -> Option<int>
    decreases n,
{
    if n <= 0 {
        None
    } else {
        match first_voltage_upto(elems, n - 1) {
            Some(e) => Some(e),
            None => if voltage_anchor(elems, n - 1) {
                Some(n - 1)
            } else {
                None
            },
        }
    }
}

/// The point whose net becomes node 0: the first ground's post, else the
/// first independent voltage source's first post, else none.
pub open spec fn ground_point(elems: Seq<ElementTopology>) -> Option<Point> {
    match first_ground_upto(elems, elems.len() as int) {
        Some(e) => Some(first_post(elems, e)),
        None => match first_voltage_upto(elems, elems.len() as int) {
            Some(e) => Some(first_post(elems, e)),
            None => None,
        },
    }
}

/// First posts of the grounded elements among the first `n`, in order.
pub open spec fn ground_points_upto(elems: Seq<ElementTopology>, n: int) -> Seq<Point>
    decreases n,
{
    if n <= 0 {
        Seq::empty()
    } else if grounded(elems, n - 1) {
        ground_points_upto(elems, n - 1).push(first_post(elems, n - 1))
    } else {
        ground_points_upto(elems, n - 1)
    }
}

/// Every point is on its own net.
pub proof fn lemma_same_net_refl(elems: Seq<ElementTopology>, p: Point)
    ensures
        same_net(elems, p, p),
{
}

/// Being on one net is symmetric.
pub proof fn lemma_same_net_symm(elems: Seq<ElementTopology>, p: Point, q: Point)
    requires
        same_net(elems, p, q),
    ensures
        same_net(elems, q, p),
{
    assert forall|f: spec_fn(Point) -> int| #[trigger] respects(elems, f) implies f(q) == f(p) by {
        assert(f(p) == f(q));
    }
}

/// Being on one net is transitive.
pub proof fn lemma_same_net_trans(elems: Seq<ElementTopology>, p: Point, q: Point, r: Point)
    requires
        same_net(elems, p, q),
        same_net(elems, q, r),
    ensures
        same_net(elems, p, r),
{
    assert forall|f: spec_fn(Point) -> int| #[trigger] respects(elems, f) implies f(p) == f(r) by {
        assert(f(p) == f(q));
        assert(f(q) == f(r));
    }
}

/// The two ends of a join are on one net.
pub proof fn lemma_edge_same_net(elems: Seq<ElementTopology>, p: Point, q: Point)
    requires
        is_edge(elems, p, q),
    ensures
        same_net(elems, p, q),
{
    assert forall|f: spec_fn(Point) -> int| #[trigger] respects(elems, f) implies f(p) == f(q) by {
        assert(is_edge(elems, p, q));
    }
}

/// Every value of `m` is a key that represents itself.
pub open spec fn roots_ok(m: Map<Point, Point>) -> bool {
    forall|p: Point| #[trigger]
        m.dom().contains(p) ==> m.dom().contains(m[p]) && m[m[p]] == m[p]
}

/// Points with one representative are on one net.
pub open spec fn sound(elems: Seq<ElementTopology>, m: Map<Point, Point>) -> bool {
    forall|p: Point, q: Point|
        #![trigger m[p], m[q]]
        m.dom().contains(p) && m.dom().contains(q) && m[p] == m[q] ==> same_net(elems, p, q)
}

/// Recording a point keeps the sets sound.
pub proof fn lemma_with_point(elems: Seq<ElementTopology>, m: Map<Point, Point>, p: Point)
    requires
        sound(elems, m),
        roots_ok(m),
    ensures
        sound(elems, with_point(m, p)),
        m.dom().subset_of(with_point(m, p).dom()),
        with_point(m, p).dom().contains(p),
        forall|x: Point| m.dom().contains(x) ==> #[trigger] with_point(m, p)[x] == m[x],
{
    let m2 = with_point(m, p);
    assert forall|x: Point, y: Point|
        #![trigger m2[x], m2[y]]
        m2.dom().contains(x) && m2.dom().contains(y) && m2[x] == m2[y] implies same_net(
        elems,
        x,
        y,
    ) by {
        if x == y {
            lemma_same_net_refl(elems, x);
        } else if m.dom().contains(x) && m.dom().contains(y) {
            assert(m[x] == m[y]);
        } else if !m.dom().contains(p) {
            if x == p {
                assert(m.dom().contains(m[y]));
            } else {
                assert(m.dom().contains(m[x]));
            }
        }
    }
}

/// The representative after `union(a, b)`: a function of the old one.
pub open spec fn union_map(m: Map<Point, Point>, a: Point, b: Point) -> Map<Point, Point> {
    joined(with_point(with_point(m, a), b), a, b)
}

/// Joining the sets of two points on one net keeps the sets sound.
pub proof fn lemma_union(elems: Seq<ElementTopology>, m: Map<Point, Point>, a: Point, b: Point)
    requires
        sound(elems, m),
        roots_ok(m),
        same_net(elems, a, b),
    ensures
        sound(elems, union_map(m, a, b)),
        m.dom().subset_of(union_map(m, a, b).dom()),
        union_map(m, a, b).dom().contains(a),
        union_map(m, a, b).dom().contains(b),
        union_map(m, a, b)[a] == union_map(m, a, b)[b],
        forall|x: Point, y: Point|
            #![trigger union_map(m, a, b)[x], union_map(m, a, b)[y]]
            m.dom().contains(x) && m.dom().contains(y) && m[x] == m[y] ==> union_map(m, a, b)[x]
                == union_map(m, a, b)[y],
{
    let m1 = with_point(m, a);
    lemma_with_point(elems, m, a);
    assert(roots_ok(m1));
    let mb = with_point(m1, b);
    lemma_with_point(elems, m1, b);
    assert(roots_ok(mb));
    let m2 = joined(mb, a, b);
    assert(mb.dom().contains(a));
    assert(mb[a] == m1[a]);
    assert forall|x: Point, y: Point|
        #![trigger m2[x], m2[y]]
        m2.dom().contains(x) && m2.dom().contains(y) && m2[x] == m2[y] implies same_net(
        elems,
        x,
        y,
    ) by {
        let xa = mb[x] == mb[b];
        let ya = mb[y] == mb[b];
        if xa == ya {
            if xa {
                assert(mb[x] == mb[y]);
            } else {
                assert(mb[x] == mb[y]);
            }
        } else if xa {
            // x is with b, y is with a
            assert(mb[y] == mb[a]);
            assert(same_net(elems, x, b));
            assert(same_net(elems, y, a));
            lemma_same_net_symm(elems, y, a);
            lemma_same_net_trans(elems, x, b, a);
            lemma_same_net_symm(elems, a, b);
            lemma_same_net_trans(elems, x, a, y);
        } else {
            assert(mb[x] == mb[a]);
            assert(same_net(elems, y, b));
            assert(same_net(elems, x, a));
            lemma_same_net_trans(elems, x, a, b);
            lemma_same_net_symm(elems, y, b);
            lemma_same_net_trans(elems, x, b, y);
        }
    }
}

/// Joining two sets keeps representatives mapping to themselves.
pub proof fn lemma_union_roots(m: Map<Point, Point>, a: Point, b: Point)
    requires
        roots_ok(m),
    ensures
        roots_ok(union_map(m, a, b)),
{
    let m1 = with_point(m, a);
    let mb = with_point(m1, b);
    assert(roots_ok(m1));
    assert(roots_ok(mb));
    assert(mb.dom().contains(a));
    let m2 = joined(mb, a, b);
    assert forall|p: Point| #[trigger] m2.dom().contains(p) implies m2.dom().contains(m2[p])
        && m2[m2[p]] == m2[p] by {
        assert(mb.dom().contains(mb[p]));
        if mb[p] == mb[b] {
            assert(mb[mb[a]] == mb[a]);
            if mb[mb[a]] == mb[b] {
                assert(mb[a] == mb[b]);
            }
        } else {
            assert(mb[mb[p]] == mb[p]);
        }
    }
}

proof fn lemma_ground_points(elems: Seq<ElementTopology>, n: int)
    requires
        0 <= n <= elems.len(),
    ensures
        forall|i: int|
            0 <= i < ground_points_upto(elems, n).len() ==> exists|e: int|
                0 <= e < n && grounded(elems, e) && #[trigger] ground_points_upto(elems, n)[i]
                    == first_post(elems, e),
        (ground_points_upto(elems, n).len() > 0) == (first_ground_upto(elems, n) is Some),
        first_ground_upto(elems, n) matches Some(e) ==> 0 <= e < n && grounded(elems, e)
            && ground_points_upto(elems, n)[0] == first_post(elems, e),
    decreases n,
{
    if n > 0 {
        lemma_ground_points(elems, n - 1);
        let prev = ground_points_upto(elems, n - 1);
        if grounded(elems, n - 1) {
            let cur = ground_points_upto(elems, n);
            assert(cur == prev.push(first_post(elems, n - 1)));
            assert forall|i: int| 0 <= i < cur.len() implies exists|e: int|
                0 <= e < n && grounded(elems, e) && #[trigger] cur[i] == first_post(elems, e) by {
                if i < prev.len() {
                    assert(cur[i] == prev[i]);
                } else {
                    assert(cur[i] == first_post(elems, n - 1));
                }
            }
        }
    }
}

proof fn lemma_first_voltage(elems: Seq<ElementTopology>, n: int)
    requires
        0 <= n <= elems.len(),
    ensures
        first_voltage_upto(elems, n) matches Some(e) ==> 0 <= e < n && voltage_anchor(elems, e),
        first_voltage_upto(elems, n) is None ==> forall|e: int|
            0 <= e < n ==> !#[trigger] voltage_anchor(elems, e),
    decreases n,
{
    if n > 0 {
        lemma_first_voltage(elems, n - 1);
    }
}

/// An injective numbering of points.
pub open spec fn point_key(p: Point) -> int {
    p.0 as int * 4294967296 + p.1 as int
}

proof fn lemma_point_key(p: Point, q: Point)
    requires
        point_key(p) == point_key(q),
    ensures
        p == q,
{
}

/// Every direct join is between recorded points with one representative.
pub open spec fn complete(elems: Seq<ElementTopology>, m: Map<Point, Point>) -> bool {
    forall|p: Point, q: Point|
        #[trigger] is_edge(elems, p, q) ==> m.dom().contains(p) && m.dom().contains(q) && m[p]
            == m[q]
}

proof fn lemma_classes_exact(elems: Seq<ElementTopology>, m: Map<Point, Point>)
    requires
        sound(elems, m),
        complete(elems, m),
    ensures
        forall|p: Point, q: Point|
            #![trigger m[p], m[q]]
            m.dom().contains(p) && m.dom().contains(q) ==> (m[p] == m[q] <==> same_net(elems, p, q)),
{
    let f = |x: Point|
        if m.dom().contains(x) {
            point_key(m[x])
        } else {
            point_key(x)
        };
    assert(respects(elems, f)) by {
        assert forall|p: Point, q: Point| #[trigger] is_edge(elems, p, q) implies f(p) == f(q) by {
            assert(m.dom().contains(p) && m.dom().contains(q) && m[p] == m[q]);
        }
    }
    assert forall|p: Point, q: Point|
        #![trigger m[p], m[q]]
        m.dom().contains(p) && m.dom().contains(q) && same_net(elems, p, q) implies m[p] == m[q] by {
        assert(f(p) == f(q));
        lemma_point_key(m[p], m[q]);
    }
}

/// Wires among the first `e` elements (and the first `j` posts of element
/// `e`) are merged in `m`.
pub open spec fn wires_merged(
    elems: Seq<ElementTopology>,
    m: Map<Point, Point>,
    e: int,
    j: int,
) -> bool {
    forall|e2: int, j2: int|
        #![trigger elems[e2].posts@[j2], elems[e2].connected_posts@[j2]]
        wire_edge_at(elems, e2, j2) && (e2 < e || (e2 == e && j2 < j)) ==> {
            let p = elems[e2].posts@[j2];
            let q = elems[e2].connected_posts@[j2].unwrap();
            m.dom().contains(p) && m.dom().contains(q) && m[p] == m[q]
        }
}

/// Equal labels among the first `e` elements are merged in `m`.
pub open spec fn labels_merged(elems: Seq<ElementTopology>, m: Map<Point, Point>, e: int) -> bool {
    forall|e1: int, e2: int|
        #![trigger m[first_post(elems, e1)], m[first_post(elems, e2)]]
        0 <= e1 < e && 0 <= e2 < e && named(elems, e1) && named(elems, e2) && name_of(elems, e1)
            == name_of(elems, e2) ==> m[first_post(elems, e1)] == m[first_post(elems, e2)]
}

/// Every post of every element is recorded in `m`.
pub open spec fn posts_recorded(elems: Seq<ElementTopology>, m: Map<Point, Point>) -> bool {
    forall|e: int, j: int|
        0 <= e < elems.len() && 0 <= j < elems[e].posts@.len() ==> m.dom().contains(
            #[trigger] elems[e].posts@[j],
        )
}


/// `m1` keeps every point of `m0` and every merge `m0` made.
pub open spec fn refines(m0: Map<Point, Point>, m1: Map<Point, Point>) -> bool {
    &&& m0.dom().subset_of(m1.dom())
    &&& forall|x: Point, y: Point|
        #![trigger m1[x], m1[y]]
        m0.dom().contains(x) && m0.dom().contains(y) && m0[x] == m0[y] ==> m1[x] == m1[y]
}

proof fn lemma_find_refines(elems: Seq<ElementTopology>, m0: Map<Point, Point>, p: Point)
    requires
        sound(elems, m0),
        roots_ok(m0),
    ensures
        refines(m0, with_point(m0, p)),
        sound(elems, with_point(m0, p)),
        with_point(m0, p).dom().contains(p),
{
    lemma_with_point(elems, m0, p);
    let m1 = with_point(m0, p);
    assert forall|x: Point, y: Point|
        #![trigger m1[x], m1[y]]
        m0.dom().contains(x) && m0.dom().contains(y) && m0[x] == m0[y] implies m1[x] == m1[y] by {
        assert(m1[x] == m0[x]);
        assert(m1[y] == m0[y]);
    }
}

proof fn lemma_union_refines(elems: Seq<ElementTopology>, m0: Map<Point, Point>, a: Point, b: Point)
    requires
        sound(elems, m0),
        roots_ok(m0),
        same_net(elems, a, b),
    ensures
        refines(m0, union_map(m0, a, b)),
        sound(elems, union_map(m0, a, b)),
        roots_ok(union_map(m0, a, b)),
        union_map(m0, a, b).dom().contains(a),
        union_map(m0, a, b).dom().contains(b),
        union_map(m0, a, b)[a] == union_map(m0, a, b)[b],
{
    lemma_union(elems, m0, a, b);
    lemma_union_roots(m0, a, b);
}

proof fn lemma_refines_refl(m: Map<Point, Point>)
    ensures
        refines(m, m),
{
}

proof fn lemma_refines_trans(m0: Map<Point, Point>, m1: Map<Point, Point>, m2: Map<Point, Point>)
    requires
        refines(m0, m1),
        refines(m1, m2),
    ensures
        refines(m0, m2),
{
    assert forall|x: Point, y: Point|
        #![trigger m2[x], m2[y]]
        m0.dom().contains(x) && m0.dom().contains(y) && m0[x] == m0[y] implies m2[x] == m2[y] by {
        assert(m1[x] == m1[y]);
    }
}

proof fn lemma_refines_keeps(elems: Seq<ElementTopology>, m0: Map<Point, Point>, m1: Map<Point, Point>, e: int, j: int, le: int)
    requires
        refines(m0, m1),
        posts_recorded(elems, m0),
        wires_merged(elems, m0, e, j),
        labels_merged(elems, m0, le),
        le <= elems.len(),
    ensures
        posts_recorded(elems, m1),
        wires_merged(elems, m1, e, j),
        labels_merged(elems, m1, le),
{
    assert forall|e2: int, j2: int|
        0 <= e2 < elems.len() && 0 <= j2 < elems[e2].posts@.len() implies m1.dom().contains(
        #[trigger] elems[e2].posts@[j2],
    ) by {
        assert(m0.dom().contains(elems[e2].posts@[j2]));
    }
    assert forall|e2: int, j2: int|
        #![trigger elems[e2].posts@[j2], elems[e2].connected_posts@[j2]]
        wire_edge_at(elems, e2, j2) && (e2 < e || (e2 == e && j2 < j)) implies {
        let p = elems[e2].posts@[j2];
        let q = elems[e2].connected_posts@[j2].unwrap();
        m1.dom().contains(p) && m1.dom().contains(q) && m1[p] == m1[q]
    } by {
        let p = elems[e2].posts@[j2];
        let q = elems[e2].connected_posts@[j2].unwrap();
        assert(m0.dom().contains(p) && m0.dom().contains(q) && m0[p] == m0[q]);
        assert(m1[p] == m1[q]);
    }
    assert forall|e1: int, e2: int|
        #![trigger m1[first_post(elems, e1)], m1[first_post(elems, e2)]]
        0 <= e1 < le && 0 <= e2 < le && named(elems, e1) && named(elems, e2) && name_of(elems, e1)
            == name_of(elems, e2) implies m1[first_post(elems, e1)] == m1[first_post(elems, e2)] by {
        assert(m0.dom().contains(elems[e1].posts@[0]));
        assert(m0.dom().contains(elems[e2].posts@[0]));
        assert(m0[first_post(elems, e1)] == m0[first_post(elems, e2)]);
    }
}

/// State of the point sets while the joins are being made.
pub open spec fn uf_ok(elems: Seq<ElementTopology>, uf: UnionFind) -> bool {
    &&& uf.wf()
    &&& sound(elems, uf@)
    &&& roots_ok(uf@)
}

proof fn lemma_wires_extend(elems: Seq<ElementTopology>, m: Map<Point, Point>, e: int, j: int)
    requires
        wires_merged(elems, m, e, j),
        wire_edge_at(elems, e, j) ==> {
            let p = elems[e].posts@[j];
            let q = elems[e].connected_posts@[j].unwrap();
            m.dom().contains(p) && m.dom().contains(q) && m[p] == m[q]
        },
    ensures
        wires_merged(elems, m, e, j + 1),
{
    assert forall|e2: int, j2: int|
        #![trigger elems[e2].posts@[j2], elems[e2].connected_posts@[j2]]
        wire_edge_at(elems, e2, j2) && (e2 < e || (e2 == e && j2 < j + 1)) implies {
        let p = elems[e2].posts@[j2];
        let q = elems[e2].connected_posts@[j2].unwrap();
        m.dom().contains(p) && m.dom().contains(q) && m[p] == m[q]
    } by {
        if e2 == e && j2 == j {
        } else {
            assert(e2 < e || (e2 == e && j2 < j));
            let p = elems[e2].posts@[j2];
            assert(m.dom().contains(p));
        }
    }
}

proof fn lemma_wires_next(elems: Seq<ElementTopology>, m: Map<Point, Point>, e: int, j: int)
    requires
        wires_merged(elems, m, e, j),
        forall|j2: int| j <= j2 ==> !#[trigger] wire_edge_at(elems, e, j2),
    ensures
        wires_merged(elems, m, e + 1, 0),
{
    assert forall|e2: int, j2: int|
        #![trigger elems[e2].posts@[j2], elems[e2].connected_posts@[j2]]
        wire_edge_at(elems, e2, j2) && (e2 < e + 1 || (e2 == e + 1 && j2 < 0)) implies {
        let p = elems[e2].posts@[j2];
        let q = elems[e2].connected_posts@[j2].unwrap();
        m.dom().contains(p) && m.dom().contains(q) && m[p] == m[q]
    } by {
        if e2 == e && j2 >= j {
            assert(!wire_edge_at(elems, e, j2));
        } else {
            assert(e2 < e || (e2 == e && j2 < j));
            let p = elems[e2].posts@[j2];
            let q = elems[e2].connected_posts@[j2].unwrap();
            assert(m.dom().contains(p));
        }
    }
}

/// Records every post of every element as a point of the sets.
fn record_posts(elems: &Vec<ElementTopology>, uf: &mut UnionFind)
    requires
        uf_ok(elems@, *old(uf)),
    ensures
        uf_ok(elems@, *final(uf)),
        refines(old(uf)@, final(uf)@),
        posts_recorded(elems@, final(uf)@),
{
    let ghost es = elems@;
    let ghost m_in = uf@;
    let n = elems.len();
    let mut e: usize = 0;
    while e < n
        invariant
            es == elems@,
            n == es.len(),
            e <= n,
            uf_ok(es, *uf),
            refines(m_in, uf@),
            forall|e2: int, j: int|
                0 <= e2 < e && 0 <= j < es[e2].posts@.len() ==> uf@.dom().contains(
                    #[trigger] es[e2].posts@[j],
                ),
        decreases n - e,
    {
        let m = elems[e].posts.len();
        let mut j: usize = 0;
        while j < m
            invariant
                es == elems@,
                n == es.len(),
                e < n,
                m == es[e as int].posts@.len(),
                j <= m,
                uf_ok(es, *uf),
                refines(m_in, uf@),
                forall|e2: int, j2: int|
                    0 <= e2 < e && 0 <= j2 < es[e2].posts@.len() ==> uf@.dom().contains(
                        #[trigger] es[e2].posts@[j2],
                    ),
                forall|j2: int| 0 <= j2 < j ==> uf@.dom().contains(#[trigger] es[e as int].posts@[j2]),
            decreases m - j,
        {
            let ghost m0 = uf@;
            let p = elems[e].posts[j];
            uf.find(p);
            proof {
                lemma_find_refines(es, m0, p);
                lemma_refines_trans(m_in, m0, uf@);
                uf.lemma_view_roots();
            }
            j = j + 1;
        }
        e = e + 1;
    }
}

/// Joins the posts of element `e` to the points its wires name.
fn merge_element_wires(elems: &Vec<ElementTopology>, e: usize, uf: &mut UnionFind)
    requires
        elements_wf(elems@),
        e < elems@.len(),
        uf_ok(elems@, *old(uf)),
        posts_recorded(elems@, old(uf)@),
        wires_merged(elems@, old(uf)@, e as int, 0),
    ensures
        uf_ok(elems@, *final(uf)),
        refines(old(uf)@, final(uf)@),
        posts_recorded(elems@, final(uf)@),
        wires_merged(elems@, final(uf)@, e as int + 1, 0),
{
    let ghost es = elems@;
    let ghost m_in = uf@;
    let el = &elems[e];
    assert(el.wf());
    if el.is_removable_wire && !el.is_ground {
        let m = el.posts.len();
        let mut j: usize = 0;
        while j < m
            invariant
                es == elems@,
                elements_wf(es),
                e < es.len(),
                *el == es[e as int],
                el.wf(),
                el.is_removable_wire && !el.is_ground,
                m == el.posts@.len(),
                j <= m,
                uf_ok(es, *uf),
                refines(m_in, uf@),
                posts_recorded(es, uf@),
                wires_merged(es, uf@, e as int, j as int),
            decreases m - j,
        {
            match el.connected_posts[j] {
                Some(p1) => {
                    let p0 = el.posts[j];
                    let ghost m0 = uf@;
                    proof {
                        assert(wire_edge_at(es, e as int, j as int));
                        assert(es[e as int].posts@[j as int] == p0);
                        assert(es[e as int].connected_posts@[j as int] == Some(p1));
                        assert(wire_edge(es, p0, p1));
                        lemma_edge_same_net(es, p0, p1);
                    }
                    uf.union(p0, p1);
                    proof {
                        lemma_union_refines(es, m0, p0, p1);
                        lemma_refines_trans(m_in, m0, uf@);
                        lemma_refines_keeps(es, m0, uf@, e as int, j as int, 0);
                        assert(es[e as int].posts@[j as int] == p0);
                        assert(es[e as int].connected_posts@[j as int].unwrap() == p1);
                        lemma_wires_extend(es, uf@, e as int, j as int);
                    }
                },
                None => {
                    proof {
                        assert(!wire_edge_at(es, e as int, j as int));
                        lemma_wires_extend(es, uf@, e as int, j as int);
                    }
                },
            }
            j = j + 1;
        }
        assert(wires_merged(es, uf@, e as int, el.posts@.len() as int));
    } else {
        assert(wires_merged(es, uf@, e as int, 0));
    }
    proof {
        if el.is_removable_wire && !el.is_ground {
            lemma_wires_next(es, uf@, e as int, el.posts@.len() as int);
        } else {
            lemma_wires_next(es, uf@, e as int, 0);
        }
    }
}

/// Records the grounds and the first independent voltage source, and joins
/// every wire's posts.
fn merge_wires(elems: &Vec<ElementTopology>, uf: &mut UnionFind) -> (r: (Vec<Point>, Option<Point>))
    requires
        elements_wf(elems@),
        uf_ok(elems@, *old(uf)),
        posts_recorded(elems@, old(uf)@),
    ensures
        uf_ok(elems@, *final(uf)),
        refines(old(uf)@, final(uf)@),
        posts_recorded(elems@, final(uf)@),
        wires_merged(elems@, final(uf)@, elems@.len() as int, 0),
        r.0@ == ground_points_upto(elems@, elems@.len() as int),
        r.1 == (match first_voltage_upto(elems@, elems@.len() as int) {
            Some(i) => Some(first_post(elems@, i)),
            None => None,
        }),
{
    let ghost es = elems@;
    let ghost m_in = uf@;
    let n = elems.len();
    let mut ground_points: Vec<Point> = Vec::new();
    let mut first_voltage: Option<Point> = None;
    let mut e: usize = 0;
    while e < n
        invariant
            es == elems@,
            n == es.len(),
            elements_wf(es),
            e <= n,
            uf_ok(es, *uf),
            refines(m_in, uf@),
            posts_recorded(es, uf@),
            ground_points@ == ground_points_upto(es, e as int),
            first_voltage == (match first_voltage_upto(es, e as int) {
                Some(i) => Some(first_post(es, i)),
                None => None,
            }),
            wires_merged(es, uf@, e as int, 0),
        decreases n - e,
    {
        let el = &elems[e];
        if el.is_ground && el.posts.len() > 0 {
            let p = el.posts[0];
            ground_points.push(p);
            let ghost m0 = uf@;
            uf.find(p);
            proof {
                lemma_find_refines(es, m0, p);
                lemma_refines_trans(m_in, m0, uf@);
                lemma_refines_keeps(es, m0, uf@, e as int, 0, 0);
                uf.lemma_view_roots();
            }
        }
        if el.is_independent_voltage && first_voltage.is_none() {
            first_voltage = if el.posts.len() > 0 {
                Some(el.posts[0])
            } else {
                None
            };
        }
        merge_element_wires(elems, e, uf);
        proof {
            lemma_refines_trans(m_in, uf@, uf@);
        }
        e = e + 1;
    }
    (ground_points, first_voltage)
}

/// Index of the first entry of `labels` named `name`, if any.
fn find_label(labels: &Vec<(String, Point)>, name: &String) -> (r: Option<usize>)
    ensures
        r matches Some(k) ==> k < labels@.len() && labels@[k as int].0@ == name@,
        r is None ==> forall|k: int| 0 <= k < labels@.len() ==> (#[trigger] labels@[k]).0@ != name@,
{
    let mut k: usize = 0;
    while k < labels.len()
        invariant
            k <= labels@.len(),
            forall|k2: int| 0 <= k2 < k ==> (#[trigger] labels@[k2]).0@ != name@,
        decreases labels@.len() - k,
    {
        if labels[k].0 == *name {
            return Some(k);
        }
        k = k + 1;
    }
    None
}

/// Label entry `entry` was made by element `s`, one of the first `e`.
pub open spec fn entry_from(elems: Seq<ElementTopology>, entry: (String, Point), s: int, e: int) -> bool {
    &&& 0 <= s < e
    &&& named(elems, s)
    &&& name_of(elems, s) == entry.0@
    &&& first_post(elems, s) == entry.1
}

/// The label table after the first `e` elements: one entry per label seen,
/// holding the first post of the first element with that label. `src[k]` is
/// the element entry `k` came from; `at[e2]` is the entry of element `e2`'s
/// label.
pub open spec fn labels_table(
    elems: Seq<ElementTopology>,
    labels: Seq<(String, Point)>,
    src: Seq<int>,
    at: Seq<int>,
    e: int,
) -> bool {
    &&& src.len() == labels.len()
    &&& at.len() == e
    &&& forall|k: int|
        #![trigger labels[k]]
        0 <= k < labels.len() ==> entry_from(elems, labels[k], src[k], e)
    &&& forall|e2: int|
        #![trigger at[e2]]
        0 <= e2 < e && named(elems, e2) ==> 0 <= at[e2] < labels.len() && labels[at[e2]].0@
            == name_of(elems, e2)
}

proof fn lemma_found_merged(
    elems: Seq<ElementTopology>,
    m0: Map<Point, Point>,
    m1: Map<Point, Point>,
    e: int,
    e1: int,
)
    requires
        0 <= e < elems.len(),
        0 <= e1 < e,
        posts_recorded(elems, m0),
        labels_merged(elems, m0, e),
        named(elems, e),
        named(elems, e1),
        name_of(elems, e1) == name_of(elems, e),
        refines(m0, m1),
        m1[first_post(elems, e1)] == m1[first_post(elems, e)],
    ensures
        labels_merged(elems, m1, e + 1),
{
    assert(m0.dom().contains(elems[e1].posts@[0]));
    assert forall|a: int, b: int|
        #![trigger m1[first_post(elems, a)], m1[first_post(elems, b)]]
        0 <= a < e + 1 && 0 <= b < e + 1 && named(elems, a) && named(elems, b) && name_of(elems, a)
            == name_of(elems, b) implies m1[first_post(elems, a)] == m1[first_post(elems, b)] by {
        assert(m0.dom().contains(elems[a].posts@[0]));
        assert(m0.dom().contains(elems[b].posts@[0]));
        if a < e && b < e {
            assert(m0[first_post(elems, a)] == m0[first_post(elems, b)]);
        } else if a == e && b < e {
            assert(m0[first_post(elems, b)] == m0[first_post(elems, e1)]);
            assert(m1[first_post(elems, b)] == m1[first_post(elems, e1)]);
        } else if b == e && a < e {
            assert(m0[first_post(elems, a)] == m0[first_post(elems, e1)]);
            assert(m1[first_post(elems, a)] == m1[first_post(elems, e1)]);
        }
    }
}

proof fn lemma_new_merged(
    elems: Seq<ElementTopology>,
    m: Map<Point, Point>,
    labels: Seq<(String, Point)>,
    src: Seq<int>,
    at: Seq<int>,
    e: int,
)
    requires
        0 <= e < elems.len(),
        labels_merged(elems, m, e),
        labels_table(elems, labels, src, at, e),
        named(elems, e),
        forall|k: int| 0 <= k < labels.len() ==> (#[trigger] labels[k]).0@ != name_of(elems, e),
    ensures
        labels_merged(elems, m, e + 1),
{
    assert forall|a: int, b: int|
        #![trigger m[first_post(elems, a)], m[first_post(elems, b)]]
        0 <= a < e + 1 && 0 <= b < e + 1 && named(elems, a) && named(elems, b) && name_of(elems, a)
            == name_of(elems, b) implies m[first_post(elems, a)] == m[first_post(elems, b)] by {
        if a == e && b < e {
            assert(labels[at[b]].0@ == name_of(elems, b));
        } else if b == e && a < e {
            assert(labels[at[a]].0@ == name_of(elems, a));
        }
    }
}

proof fn lemma_table_step(
    elems: Seq<ElementTopology>,
    labels: Seq<(String, Point)>,
    src: Seq<int>,
    at: Seq<int>,
    e: int,
    k: int,
)
    requires
        labels_table(elems, labels, src, at, e),
        named(elems, e) ==> 0 <= k < labels.len() && labels[k].0@ == name_of(elems, e),
    ensures
        labels_table(elems, labels, src, at.push(k), e + 1),
{
    let at2 = at.push(k);
    assert forall|k2: int|
        #![trigger labels[k2]]
        0 <= k2 < labels.len() implies entry_from(elems, labels[k2], src[k2], e + 1) by {
        assert(entry_from(elems, labels[k2], src[k2], e));
    }
    assert forall|e2: int|
        #![trigger at2[e2]]
        0 <= e2 < e + 1 && named(elems, e2) implies 0 <= at2[e2] < labels.len() && labels[at2[e2]].0@
            == name_of(elems, e2) by {
        if e2 < e {
            assert(at2[e2] == at[e2]);
        }
    }
    assert(src.len() == labels.len());
    assert(at2.len() == e + 1);
}

/// Joins element `e`'s first post to the first post of the first element
/// with the same label, or records its label as new.
fn merge_label_at(
    elems: &Vec<ElementTopology>,
    e: usize,
    uf: &mut UnionFind,
    labels: &mut Vec<(String, Point)>,
    Ghost(src): Ghost<Seq<int>>,
    Ghost(at): Ghost<Seq<int>>,
) -> (r: (Ghost<Seq<int>>, Ghost<Seq<int>>))
    requires
        elements_wf(elems@),
        e < elems@.len(),
        uf_ok(elems@, *old(uf)),
        posts_recorded(elems@, old(uf)@),
        wires_merged(elems@, old(uf)@, elems@.len() as int, 0),
        labels_merged(elems@, old(uf)@, e as int),
        labels_table(elems@, old(labels)@, src, at, e as int),
    ensures
        uf_ok(elems@, *final(uf)),
        refines(old(uf)@, final(uf)@),
        posts_recorded(elems@, final(uf)@),
        wires_merged(elems@, final(uf)@, elems@.len() as int, 0),
        labels_merged(elems@, final(uf)@, e as int + 1),
        labels_table(elems@, final(labels)@, r.0@, r.1@, e as int + 1),
{
    let ghost es = elems@;
    let ghost m_in = uf@;
    let ghost lab0 = labels@;
    let el = &elems[e];
    proof {
        lemma_refines_refl(uf@);
    }
    if let Some(name) = &el.net_name {
        if el.posts.len() > 0 {
            let p0 = el.posts[0];
            assert(named(es, e as int));
            match find_label(labels, name) {
                Some(k) => {
                    let first = labels[k].1;
                    let ghost e1 = src[k as int];
                    proof {
                        assert(labels@[k as int] == labels@[k as int]);
                        assert(label_edge(es, first_post(es, e1), first_post(es, e as int)));
                        lemma_edge_same_net(es, first, p0);
                    }
                    uf.union(first, p0);
                    proof {
                        lemma_union_refines(es, m_in, first, p0);
                        lemma_refines_keeps(es, m_in, uf@, es.len() as int, 0, e as int);
                        lemma_found_merged(es, m_in, uf@, e as int, e1);
                        lemma_table_step(es, labels@, src, at, e as int, k as int);
                    }
                    return (Ghost(src), Ghost(at.push(k as int)));
                },
                None => {
                    labels.push((name.clone(), p0));
                    proof {
                        lemma_new_merged(es, uf@, lab0, src, at, e as int);
                        let src2 = src.push(e as int);
                        let at2 = at.push(lab0.len() as int);
                        assert(labels_table(es, labels@, src2, at2, e as int + 1)) by {
                            assert forall|k: int|
                                #![trigger labels@[k]]
                                0 <= k < labels@.len() implies entry_from(es, labels@[k], src2[k], e + 1) by {
                                if k < lab0.len() {
                                    assert(labels@[k] == lab0[k]);
                                    assert(entry_from(es, lab0[k], src[k], e as int));
                                }
                            }
                            assert forall|e2: int|
                                #![trigger at2[e2]]
                                0 <= e2 < e + 1 && named(es, e2) implies 0 <= at2[e2] < labels@.len()
                                    && labels@[at2[e2]].0@ == name_of(es, e2) by {
                                if e2 < e {
                                    assert(at2[e2] == at[e2]);
                                    assert(labels@[at[e2]] == lab0[at[e2]]);
                                }
                            }
                        }
                    }
                    return (Ghost(src.push(e as int)), Ghost(at.push(lab0.len() as int)));
                },
            }
        }
    }
    proof {
        assert(!named(es, e as int));
        lemma_table_step(es, labels@, src, at, e as int, 0);
    }
    (Ghost(src), Ghost(at.push(0)))
}

/// Joins the first posts of elements that carry equal labels.
fn merge_labels(elems: &Vec<ElementTopology>, uf: &mut UnionFind)
    requires
        elements_wf(elems@),
        uf_ok(elems@, *old(uf)),
        posts_recorded(elems@, old(uf)@),
        wires_merged(elems@, old(uf)@, elems@.len() as int, 0),
    ensures
        uf_ok(elems@, *final(uf)),
        refines(old(uf)@, final(uf)@),
        posts_recorded(elems@, final(uf)@),
        wires_merged(elems@, final(uf)@, elems@.len() as int, 0),
        labels_merged(elems@, final(uf)@, elems@.len() as int),
{
    let ghost es = elems@;
    let ghost m_in = uf@;
    let n = elems.len();
    let mut labels: Vec<(String, Point)> = Vec::new();
    let ghost mut src: Seq<int> = Seq::empty();
    let ghost mut at: Seq<int> = Seq::empty();
    let mut e: usize = 0;
    while e < n
        invariant
            es == elems@,
            n == es.len(),
            elements_wf(es),
            e <= n,
            uf_ok(es, *uf),
            refines(m_in, uf@),
            posts_recorded(es, uf@),
            wires_merged(es, uf@, n as int, 0),
            labels_merged(es, uf@, e as int),
            labels_table(es, labels@, src, at, e as int),
        decreases n - e,
    {
        let ghost m0 = uf@;
        let (Ghost(s2), Ghost(a2)) = merge_label_at(elems, e, uf, &mut labels, Ghost(src), Ghost(at));
        proof {
            src = s2;
            at = a2;
            lemma_refines_trans(m_in, m0, uf@);
        }
        e = e + 1;
    }
}

proof fn lemma_ground_points_cover(elems: Seq<ElementTopology>, n: int)
    requires
        0 <= n <= elems.len(),
    ensures
        forall|e: int|
            0 <= e < n && #[trigger] grounded(elems, e) ==> ground_points_upto(elems, n).contains(
                first_post(elems, e),
            ),
    decreases n,
{
    if n > 0 {
        lemma_ground_points_cover(elems, n - 1);
        let prev = ground_points_upto(elems, n - 1);
        let cur = ground_points_upto(elems, n);
        assert forall|e: int|
            0 <= e < n && #[trigger] grounded(elems, e) implies cur.contains(first_post(elems, e)) by {
            if grounded(elems, n - 1) {
                assert(cur == prev.push(first_post(elems, n - 1)));
                if e < n - 1 {
                    let i = choose|i: int| 0 <= i < prev.len() && prev[i] == first_post(elems, e);
                    assert(cur[i] == prev[i]);
                } else {
                    assert(cur[prev.len() as int] == first_post(elems, e));
                }
            } else {
                assert(e != n - 1);
            }
        }
    }
}

/// Joins every ground's post to the first ground's post.
fn merge_grounds(elems: &Vec<ElementTopology>, uf: &mut UnionFind, gps: &Vec<Point>)
    requires
        elements_wf(elems@),
        uf_ok(elems@, *old(uf)),
        posts_recorded(elems@, old(uf)@),
        wires_merged(elems@, old(uf)@, elems@.len() as int, 0),
        labels_merged(elems@, old(uf)@, elems@.len() as int),
        gps@ == ground_points_upto(elems@, elems@.len() as int),
    ensures
        uf_ok(elems@, *final(uf)),
        refines(old(uf)@, final(uf)@),
        posts_recorded(elems@, final(uf)@),
        wires_merged(elems@, final(uf)@, elems@.len() as int, 0),
        labels_merged(elems@, final(uf)@, elems@.len() as int),
        forall|i: int|
            0 <= i < gps@.len() ==> final(uf)@.dom().contains(#[trigger] gps@[i]) && final(uf)@[gps@[i]]
                == final(uf)@[gps@[0]],
{
    let ghost es = elems@;
    let ghost m_in = uf@;
    proof {
        lemma_ground_points(es, es.len() as int);
        lemma_refines_refl(uf@);
    }
    if gps.len() == 0 {
        return;
    }
    let g0 = gps[0];
    proof {
        let e0 = choose|e: int|
            0 <= e < es.len() && grounded(es, e) && #[trigger] ground_points_upto(es, es.len() as int)[0]
                == first_post(es, e);
        assert(uf@.dom().contains(es[e0].posts@[0]));
    }
    let mut i: usize = 1;
    while i < gps.len()
        invariant
            es == elems@,
            elements_wf(es),
            gps@ == ground_points_upto(es, es.len() as int),
            gps@.len() > 0,
            g0 == gps@[0],
            1 <= i <= gps@.len(),
            uf_ok(es, *uf),
            refines(m_in, uf@),
            posts_recorded(es, uf@),
            wires_merged(es, uf@, es.len() as int, 0),
            labels_merged(es, uf@, es.len() as int),
            uf@.dom().contains(g0),
            forall|i2: int|
                0 <= i2 < i ==> uf@.dom().contains(#[trigger] gps@[i2]) && uf@[gps@[i2]] == uf@[g0],
            forall|i2: int|
                0 <= i2 < gps@.len() ==> exists|e: int|
                    0 <= e < es.len() && grounded(es, e) && #[trigger] gps@[i2] == first_post(es, e),
        decreases gps@.len() - i,
    {
        let g = gps[i];
        let ghost m0 = uf@;
        proof {
            let e0 = choose|e: int| 0 <= e < es.len() && grounded(es, e) && #[trigger] gps@[0] == first_post(es, e);
            let e1 = choose|e: int| 0 <= e < es.len() && grounded(es, e) && #[trigger] gps@[i as int] == first_post(es, e);
            assert(ground_edge(es, first_post(es, e0), first_post(es, e1)));
            lemma_edge_same_net(es, g0, g);
        }
        uf.union(g0, g);
        proof {
            lemma_union_refines(es, m0, g0, g);
            lemma_refines_trans(m_in, m0, uf@);
            lemma_refines_keeps(es, m0, uf@, es.len() as int, 0, es.len() as int);
            assert forall|i2: int|
                0 <= i2 < i + 1 implies uf@.dom().contains(#[trigger] gps@[i2]) && uf@[gps@[i2]]
                    == uf@[g0] by {
                if i2 < i {
                    assert(m0[gps@[i2]] == m0[g0]);
                }
            }
        }
        i = i + 1;
    }
}

/// Groups the posts of `elems` into nets. Returns the sets, whose
/// representatives stand for the nets, and the representative of the net
/// that becomes ground.
pub fn net_classes(elems: &Vec<ElementTopology>) -> (r: (UnionFind, Option<Point>))
    requires
        elements_wf(elems@),
    ensures
        r.0.wf(),
        roots_ok(r.0@),
        posts_recorded(elems@, r.0@),
        forall|p: Point, q: Point|
            #![trigger r.0@[p], r.0@[q]]
            r.0@.dom().contains(p) && r.0@.dom().contains(q) ==> (r.0@[p] == r.0@[q] <==> same_net(
                elems@,
                p,
                q,
            )),
        ground_point(elems@) matches Some(g) ==> r.0@.dom().contains(g),
        r.1 == (match ground_point(elems@) {
            Some(g) => Some(r.0@[g]),
            None => None,
        }),
{
    let ghost es = elems@;
    let mut uf = UnionFind::new();
    proof {
        assert(sound(es, uf@));
        assert(roots_ok(uf@));
    }
    record_posts(elems, &mut uf);
    proof {
        assert(labels_merged(es, uf@, 0));
        assert(wires_merged(es, uf@, 0, 0));
    }
    let (gps, first_voltage) = merge_wires(elems, &mut uf);
    merge_labels(elems, &mut uf);
    merge_grounds(elems, &mut uf, &gps);
    proof {
        let m = uf@;
        lemma_ground_points(es, es.len() as int);
        lemma_ground_points_cover(es, es.len() as int);
        lemma_first_voltage(es, es.len() as int);
        assert forall|p: Point, q: Point| #[trigger] is_edge(es, p, q) implies m.dom().contains(p)
            && m.dom().contains(q) && m[p] == m[q] by {
            if wire_edge(es, p, q) {
                let (e, j) = choose|e: int, j: int|
                    #![trigger es[e].posts@[j], es[e].connected_posts@[j]]
                    wire_edge_at(es, e, j) && es[e].posts@[j] == p && es[e].connected_posts@[j]
                        == Some(q);
                assert(es[e].connected_posts@[j].unwrap() == q);
            } else if label_edge(es, p, q) {
                let (e1, e2) = choose|e1: int, e2: int|
                    #![trigger first_post(es, e1), first_post(es, e2)]
                    0 <= e1 < es.len() && 0 <= e2 < es.len() && named(es, e1) && named(es, e2)
                        && name_of(es, e1) == name_of(es, e2) && p == first_post(es, e1) && q
                        == first_post(es, e2);
                assert(m.dom().contains(es[e1].posts@[0]));
                assert(m.dom().contains(es[e2].posts@[0]));
                assert(m[first_post(es, e1)] == m[first_post(es, e2)]);
            } else {
                let (e1, e2) = choose|e1: int, e2: int|
                    #![trigger first_post(es, e1), first_post(es, e2)]
                    0 <= e1 < es.len() && 0 <= e2 < es.len() && grounded(es, e1) && grounded(es, e2)
                        && p == first_post(es, e1) && q == first_post(es, e2);
                assert(gps@.contains(first_post(es, e1)));
                assert(gps@.contains(first_post(es, e2)));
                let i1 = choose|i: int| 0 <= i < gps@.len() && gps@[i] == first_post(es, e1);
                let i2 = choose|i: int| 0 <= i < gps@.len() && gps@[i] == first_post(es, e2);
                assert(m[gps@[i1]] == m[gps@[0]]);
                assert(m[gps@[i2]] == m[gps@[0]]);
            }
        }
        assert(complete(es, m));
        lemma_classes_exact(es, m);
        uf.lemma_view_roots();
    }
    let ghost m = uf@;
    let root = if gps.len() > 0 {
        let g = uf.find(gps[0]);
        Some(g)
    } else {
        match first_voltage {
            Some(p) => {
                proof {
                    let e = first_voltage_upto(es, es.len() as int).unwrap();
                    assert(m.dom().contains(es[e].posts@[0]));
                }
                Some(uf.find(p))
            },
            None => None,
        }
    };
    proof {
        assert(uf@ == m);
        if first_ground_upto(es, es.len() as int) is Some {
            let e = first_ground_upto(es, es.len() as int).unwrap();
            assert(m.dom().contains(es[e].posts@[0]));
        } else if first_voltage_upto(es, es.len() as int) is Some {
            let e = first_voltage_upto(es, es.len() as int).unwrap();
            assert(m.dom().contains(es[e].posts@[0]));
        }
    }
    (uf, root)
}

} // verus!
