//! Disjoint sets of schematic points, with path compression.
use vstd::prelude::*;
use std::collections::HashMap;

verus! {

broadcast use vstd::std_specs::hash::group_hash_axioms;

/// A schematic grid point.
pub type Point = (i32, i32);

/// Disjoint-set forest over the points seen so far; a hash index finds the
/// slot of a point.
///
/// Its abstract value is a map from every recorded point to the
/// representative of its set; representatives map to themselves.
pub struct UnionFind {
    index: HashMap<u64, usize>,
    points: Vec<Point>,
    parent: Vec<usize>,
    root: Ghost<Seq<int>>,
    level: Ghost<Seq<nat>>,
    bound: Ghost<nat>,
}

/// Hash key of a point: its coordinates, shifted to be non-negative, side by
/// side in one 64-bit number.
pub(crate) open spec fn point_key(p: Point) -> u64 {
    ((p.0 + 0x8000_0000) * 0x1_0000_0000 + (p.1 + 0x8000_0000)) as u64
}

pub(crate) proof fn lemma_point_key(p: Point, q: Point)
    ensures
        point_key(p) == (p.0 + 0x8000_0000) * 0x1_0000_0000 + (p.1 + 0x8000_0000),
        point_key(p) == point_key(q) ==> p == q,
{
    let a = p.0 + 0x8000_0000;
    let b = p.1 + 0x8000_0000;
    let c = q.0 + 0x8000_0000;
    let d = q.1 + 0x8000_0000;
    assert(0 <= a * 0x1_0000_0000 + b <= 0xffff_ffff_ffff_ffff) by (nonlinear_arith)
        requires
            0 <= a < 0x1_0000_0000,
            0 <= b < 0x1_0000_0000,
    ;
    assert(0 <= c * 0x1_0000_0000 + d <= 0xffff_ffff_ffff_ffff) by (nonlinear_arith)
        requires
            0 <= c < 0x1_0000_0000,
            0 <= d < 0x1_0000_0000,
    ;
    if a * 0x1_0000_0000 + b == c * 0x1_0000_0000 + d {
        assert(a == c && b == d) by (nonlinear_arith)
            requires
                0 <= b < 0x1_0000_0000,
                0 <= d < 0x1_0000_0000,
                a * 0x1_0000_0000 + b == c * 0x1_0000_0000 + d,
        ;
    }
}

/// Hash key of `p`.
pub(crate) fn key_of(p: Point) -> (k: u64)
    ensures
        k == point_key(p),
{
    proof {
        lemma_point_key(p, p);
    }
    let a: u64 = (p.0 as i64 + 0x8000_0000) as u64;
    let b: u64 = (p.1 as i64 + 0x8000_0000) as u64;
    assert(a * 0x1_0000_0000 + b <= 0xffff_ffff_ffff_ffff) by (nonlinear_arith)
        requires
            a < 0x1_0000_0000,
            b < 0x1_0000_0000,
    ;
    a * 0x1_0000_0000 + b
}

spec fn index_in(points: Seq<Point>, p: Point) -> int {
    choose|i: int| 0 <= i < points.len() && points[i] == p
}

spec fn view_of(points: Seq<Point>, root: Seq<int>) -> Map<Point, Point> {
    Map::new(|p: Point| points.contains(p), |p: Point| points[root[index_in(points, p)]])
}

/// `m` with `p` recorded as its own representative if it was not yet present.
pub open spec fn with_point(m: Map<Point, Point>, p: Point) -> Map<Point, Point> {
    if m.dom().contains(p) {
        m
    } else {
        m.insert(p, p)
    }
}

/// `m` after the set of `b` is merged into the set of `a`.
pub open spec fn joined(m: Map<Point, Point>, a: Point, b: Point) -> Map<Point, Point> {
    Map::new(|x: Point| m.dom().contains(x), |x: Point| if m[x] == m[b] { m[a] } else { m[x] })
}

proof fn lemma_join_same(m: Map<Point, Point>, a: Point, b: Point)
    requires
        m[a] == m[b],
    ensures
        joined(m, a, b) == m,
{
    assert(joined(m, a, b) =~= m);
}

spec fn link_root(root: Seq<int>, ra: int, rb: int) -> Seq<int> {
    Seq::new(root.len(), |x: int| if root[x] == rb { ra } else { root[x] })
}

spec fn link_level_at(level: Seq<nat>, ra: int, rb: int) -> nat {
    if level[ra] > level[rb] { level[ra] } else { level[rb] + 1 }
}

spec fn link_level(level: Seq<nat>, ra: int, rb: int) -> Seq<nat> {
    level.update(ra, link_level_at(level, ra, rb))
}

spec fn link_bound(level: Seq<nat>, bound: nat, ra: int, rb: int) -> nat {
    if bound > link_level_at(level, ra, rb) { bound } else { link_level_at(level, ra, rb) + 1 }
}

impl UnionFind {
    /// Index of a recorded point in the table.
    spec fn index_of(&self, p: Point) -> int {
        index_in(self.points@, p)
    }

    /// Representative of every recorded point.
    pub closed spec fn view(&self) -> Map<Point, Point> {
        view_of(self.points@, self.root@)
    }

    /// The forest is well formed: parents and representatives agree, and a
    /// ghost level strictly increases along every parent edge.
    pub closed spec fn wf(&self) -> bool {
        let n = self.points@.len();
        let pts = self.points@;
        let par = self.parent@;
        let root = self.root@;
        let level = self.level@;
        &&& par.len() == n
        &&& root.len() == n
        &&& level.len() == n
        &&& forall|i: int, j: int| 0 <= i < n && 0 <= j < n && i != j ==> pts[i] != pts[j]
        &&& forall|i: int| 0 <= i < n ==> par[i] < n
        &&& forall|i: int| 0 <= i < n ==> 0 <= #[trigger] root[i] < n
        &&& forall|i: int| 0 <= i < n ==> root[root[i]] == root[i]
        &&& forall|i: int| 0 <= i < n ==> (par[i] == i) == (#[trigger] root[i] == i)
        &&& forall|i: int| 0 <= i < n ==> root[#[trigger] par[i] as int] == root[i]
        &&& forall|i: int|
            0 <= i < n && #[trigger] par[i] != i ==> level[par[i] as int] > level[i]
        &&& forall|i: int| 0 <= i < n && #[trigger] root[i] != i ==> level[root[i]] > level[i]
        &&& forall|i: int| 0 <= i < n ==> #[trigger] level[i] < self.bound@
        &&& forall|i: int|
            0 <= i < n ==> self.index@.contains_key(point_key(#[trigger] pts[i])) && self.index@[point_key(
                pts[i],
            )] == i
        &&& forall|k: u64|
            #[trigger] self.index@.contains_key(k) ==> (self.index@[k] as int) < n && point_key(
                pts[self.index@[k] as int],
            ) == k
    }

    proof fn lemma_index_of(&self, i: int)
        requires
            self.wf(),
            0 <= i < self.points@.len(),
        ensures
            self.index_of(self.points@[i]) == i,
    {
        let p = self.points@[i];
        assert(self.points@[i] == p);
        let j = self.index_of(p);
        assert(0 <= j < self.points@.len() && self.points@[j] == p);
    }

    /// Every value of the map is a representative of itself.
    pub proof fn lemma_view_roots(&self)
        requires
            self.wf(),
        ensures
            forall|p: Point| #[trigger]
                self@.dom().contains(p) ==> self@.dom().contains(self@[p]) && self@[self@[p]]
                    == self@[p],
    {
        assert forall|p: Point| #[trigger] self@.dom().contains(p) implies self@.dom().contains(
            self@[p],
        ) && self@[self@[p]] == self@[p] by {
            let i = self.index_of(p);
            assert(self.points@.contains(p));
            let k = choose|k: int| 0 <= k < self.points@.len() && self.points@[k] == p;
            assert(0 <= i < self.points@.len() && self.points@[i] == p);
            let r = self.root@[i];
            assert(0 <= r < self.points@.len());
            assert(self.points@.contains(self.points@[r]));
            self.lemma_index_of(r);
        }
    }

    /// An empty forest.
    pub fn new() -> (uf: Self)
        ensures
            uf.wf(),
            uf@ == Map::<Point, Point>::empty(),
    {
        let uf = UnionFind {
            index: HashMap::new(),
            points: Vec::new(),
            parent: Vec::new(),
            root: Ghost(Seq::empty()),
            level: Ghost(Seq::empty()),
            bound: Ghost(0),
        };
        assert(uf@ =~= Map::<Point, Point>::empty());
        uf
    }

    /// Index of `p` in the table, recording it as a singleton set if new.
    fn lookup(&mut self, p: Point) -> (i: usize)
        requires
            old(self).wf(),
        ensures
            final(self).wf(),
            i < final(self).points@.len(),
            final(self).points@[i as int] == p,
            old(self).points@.contains(p) ==> final(self).points@ == old(self).points@
                && final(self).root@ == old(self).root@,
            !old(self).points@.contains(p) ==> final(self).points@ == old(self).points@.push(p)
                && final(self).root@ == old(self).root@.push(i as int) && i == old(
                self,
            ).points@.len(),
    {
        let n = self.points.len();
        let key = key_of(p);
        match self.index.get(&key) {
            Some(i) => {
                let i = *i;
                proof {
                    lemma_point_key(self.points@[i as int], p);
                }
                return i;
            },
            None => {},
        }
        proof {
            if self.points@.contains(p) {
                let j = choose|j: int| 0 <= j < n && self.points@[j] == p;
                assert(self.index@.contains_key(point_key(self.points@[j])));
            }
        }
        assert(!self.points@.contains(p));
        let ghost old_pts = self.points@;
        let ghost old_index = self.index@;
        self.points.push(p);
        self.parent.push(n);
        self.index.insert(key, n);
        proof {
            assert forall|i: int| 0 <= i < n + 1 implies self.index@.contains_key(point_key(
                #[trigger] self.points@[i],
            )) && self.index@[point_key(self.points@[i])] == i by {
                if i < n {
                    assert(self.points@[i] == old_pts[i]);
                    lemma_point_key(old_pts[i], p);
                }
            }
            assert forall|k: u64| #[trigger] self.index@.contains_key(k) implies (self.index@[k] as int)
                < n + 1 && point_key(self.points@[self.index@[k] as int]) == k by {
                if k != key {
                    assert(old_index.contains_key(k));
                    assert(self.points@[old_index[k] as int] == old_pts[old_index[k] as int]);
                }
            }
        }
        let ghost old_root = self.root@;
        self.root = Ghost(self.root@.push(n as int));
        self.level = Ghost(self.level@.push(0));
        self.bound = Ghost(self.bound@ + 1);
        assert(forall|i: int| 0 <= i < n ==> self.root@[i] == old_root[i]);
        n
    }

    /// Representative index of `i`, compressing the path from `i`.
    fn find_index(&mut self, i: usize) -> (r: usize)
        requires
            old(self).wf(),
            i < old(self).points@.len(),
        ensures
            final(self).wf(),
            final(self).points@ == old(self).points@,
            final(self).root@ == old(self).root@,
            final(self).level@ == old(self).level@,
            final(self).bound@ == old(self).bound@,
            final(self).index@ == old(self).index@,
            r == old(self).root@[i as int],
        decreases old(self).bound@ - old(self).level@[i as int],
    {
        let p = self.parent[i];
        if p == i {
            return i;
        }
        assert(self.level@[p as int] > self.level@[i as int]);
        assert(self.level@[p as int] < self.bound@);
        let r = self.find_index(p);
        assert(r == self.root@[i as int]);
        self.parent.set(i, r);
        assert(self.root@[r as int] == self.root@[i as int]);
        r
    }

    proof fn lemma_view_after_lookup(old_uf: &Self, new_uf: &Self, p: Point, i: int)
        requires
            old_uf.wf(),
            new_uf.wf(),
            0 <= i < new_uf.points@.len(),
            new_uf.points@[i] == p,
            old_uf.points@.contains(p) ==> new_uf.points@ == old_uf.points@ && new_uf.root@
                == old_uf.root@,
            !old_uf.points@.contains(p) ==> new_uf.points@ == old_uf.points@.push(p)
                && new_uf.root@ == old_uf.root@.push(i) && i == old_uf.points@.len(),
        ensures
            new_uf@ == with_point(old_uf@, p),
            new_uf@[p] == new_uf.points@[new_uf.root@[i]],
    {
        new_uf.lemma_index_of(i);
        if old_uf.points@.contains(p) {
            assert(new_uf@ =~= old_uf@);
        } else {
            let m = old_uf@.insert(p, p);
            assert forall|q: Point| #[trigger] new_uf@.dom().contains(q) <==> m.dom().contains(
                q,
            ) by {
                if new_uf.points@.contains(q) && q != p {
                    let k = choose|k: int| 0 <= k < new_uf.points@.len() && new_uf.points@[k] == q;
                    assert(k < old_uf.points@.len());
                    assert(old_uf.points@[k] == q);
                }
                if old_uf.points@.contains(q) {
                    let k = choose|k: int| 0 <= k < old_uf.points@.len() && old_uf.points@[k] == q;
                    assert(new_uf.points@[k] == q);
                }
            }
            assert forall|q: Point| #[trigger] new_uf@.dom().contains(q) implies new_uf@[q]
                == m[q] by {
                if q != p {
                    let k = choose|k: int| 0 <= k < new_uf.points@.len() && new_uf.points@[k] == q;
                    assert(k < old_uf.points@.len());
                    new_uf.lemma_index_of(k);
                    old_uf.lemma_index_of(k);
                }
            }
            assert(new_uf@ =~= m);
        }
    }

    proof fn lemma_link_wf(u3: &Self, u: &Self, ra: int, rb: int)
        requires
            u3.wf(),
            0 <= ra < u3.points@.len(),
            0 <= rb < u3.points@.len(),
            ra != rb,
            u3.root@[ra] == ra,
            u3.root@[rb] == rb,
            u.points@ == u3.points@,
            u.index@ == u3.index@,
            u.parent@ == u3.parent@.update(rb, ra as usize),
            u.root@ == link_root(u3.root@, ra, rb),
            u.level@ == link_level(u3.level@, ra, rb),
            u.bound@ == link_bound(u3.level@, u3.bound@, ra, rb),
        ensures
            u.wf(),
    {
        let n = u3.points@.len() as int;
        let old_root = u3.root@;
        let old_level = u3.level@;
        let new_root = u.root@;
        let new_level = u.level@;
        assert forall|i: int| 0 <= i < n && #[trigger] u.parent@[i] != i implies new_level[
            u.parent@[i] as int] > new_level[i] by {
            if i != rb {
                assert(u3.parent@[i] == u.parent@[i]);
                assert(old_level[u3.parent@[i] as int] > old_level[i]);
                if i == ra {
                    assert(false);
                }
            }
        }
        assert forall|i: int| 0 <= i < n && #[trigger] new_root[i] != i implies new_level[
            new_root[i]] > new_level[i] by {
            if old_root[i] == rb {
                if i != rb {
                    assert(old_level[rb] > old_level[i]);
                }
            } else {
                if i == ra {
                    assert(false);
                }
            }
        }
        assert forall|i: int| 0 <= i < n implies new_root[#[trigger] u.parent@[i] as int]
            == new_root[i] by {
            if i != rb {
                assert(u3.parent@[i] == u.parent@[i]);
            }
        }
        assert forall|i: int| 0 <= i < n implies (u.parent@[i] == i) == (#[trigger] new_root[i]
            == i) by {
            if i != rb {
                assert(u3.parent@[i] == u.parent@[i]);
            }
        }
        assert forall|i: int| 0 <= i < n implies #[trigger] new_level[i] < u.bound@ by {
            if i != ra {
                assert(old_level[i] < u3.bound@);
            }
        }
    }

    proof fn lemma_link_view(u2: &Self, u: &Self, a: Point, b: Point, ra: int, rb: int)
        requires
            u2.wf(),
            u.wf(),
            0 <= ra < u2.points@.len(),
            0 <= rb < u2.points@.len(),
            u2.root@[ra] == ra,
            u2.root@[rb] == rb,
            u.points@ == u2.points@,
            u.root@ == link_root(u2.root@, ra, rb),
            u2@.dom().contains(a),
            u2@.dom().contains(b),
            u2@[a] == u2.points@[ra],
            u2@[b] == u2.points@[rb],
        ensures
            u@ == joined(u2@, a, b),
    {
        let m = u2@;
        let n = u2.points@.len() as int;
        let old_root = u2.root@;
        let target = Map::new(
            |x: Point| m.dom().contains(x),
            |x: Point|
                if m[x] == m[b] {
                    m[a]
                } else {
                    m[x]
                },
        );
        assert forall|x: Point| #[trigger] u@.dom().contains(x) implies u@[x] == target[x] by {
            let k = u2.index_of(x);
            assert(u2.points@.contains(x));
            u.lemma_index_of(k);
            u2.lemma_index_of(k);
            assert(0 <= old_root[k] < n);
            if old_root[k] == rb {
                assert(m[x] == m[b]);
            } else {
                assert(u2.points@[old_root[k]] != u2.points@[rb]);
            }
        }
        assert(u@ =~= target);
    }

    /// Representative of `p`; `p` is recorded as a singleton set if new.
    pub fn find(&mut self, p: Point) -> (r: Point)
        requires
            old(self).wf(),
        ensures
            final(self).wf(),
            final(self)@ == with_point(old(self)@, p),
            r == final(self)@[p],
    {
        let ghost old_uf = *self;
        let i = self.lookup(p);
        let ghost mid = *self;
        proof {
            Self::lemma_view_after_lookup(&old_uf, &mid, p, i as int);
        }
        let ri = self.find_index(i);
        self.points[ri]
    }

    /// Joins the sets of `a` and `b`: the representative of `b` is hung
    /// under the representative of `a`. Both points are recorded first.
    #[verifier::rlimit(60)]
    #[verifier::spinoff_prover]
    pub fn union(&mut self, a: Point, b: Point)
        requires
            old(self).wf(),
        ensures
            final(self).wf(),
            final(self)@ == joined(with_point(with_point(old(self)@, a), b), a, b),
    {
        let ghost u0 = *self;
        let ia = self.lookup(a);
        let ghost u1 = *self;
        proof {
            Self::lemma_view_after_lookup(&u0, &u1, a, ia as int);
        }
        let ib = self.lookup(b);
        let ghost u2 = *self;
        proof {
            Self::lemma_view_after_lookup(&u1, &u2, b, ib as int);
            u2.lemma_index_of(ia as int);
            assert(u2.points@[ia as int] == a);
        }
        let ra = self.find_index(ia);
        let rb = self.find_index(ib);
        if ra != rb {
            let ghost u3 = *self;
            self.parent.set(rb, ra);
            self.root = Ghost(link_root(u3.root@, ra as int, rb as int));
            self.level = Ghost(link_level(u3.level@, ra as int, rb as int));
            self.bound = Ghost(link_bound(u3.level@, u3.bound@, ra as int, rb as int));
            proof {
                Self::lemma_link_wf(&u3, self, ra as int, rb as int);
                Self::lemma_link_view(&u2, self, a, b, ra as int, rb as int);
            }
        } else {
            proof {
                lemma_join_same(u2@, a, b);
            }
        }
    }
}

} // verus!
