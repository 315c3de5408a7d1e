//! Coarse spatial index over map entities.
//!
//! Entities of every kind share one coordinate space; the index maps each
//! key to an axis-aligned bounding box and answers point, rectangle and
//! radius queries with the keys whose box meets the query. Exactness is the
//! caller's responsibility: a hit here is a candidate, to be narrowed by the
//! exact shape of the entity.

use vstd::prelude::*;
use crate::geom::{AABB, MAX_COORD, Vec2};
use crate::handles::{BuildingID, IntersectionID, LotID, RoadID};

verus! {

/// The kind of map entity a projection or spatial entry refers to.
#[derive(Copy, Clone, Debug, PartialEq, Eq, Hash, Structural)]
pub enum ProjectKind {
    Inter(IntersectionID),
    Road(RoadID),
    Building(BuildingID),
    Lot(LotID),
    Ground,
}

impl ProjectKind {
    pub fn to_lot(self) -> (r: Option<LotID>)
        ensures
            r == match self {
                ProjectKind::Lot(id) => Some(id),
                _ => None::<LotID>,
            },
    {
        if let ProjectKind::Lot(id) = self {
            Some(id)
        } else {
            None
        }
    }
}

/// The box stored for `k` among the entries `s`, if any.
pub open spec fn find_shape(s: Seq<(ProjectKind, AABB)>, k: ProjectKind) -> Option<AABB>
    decreases s.len(),
{
    if s.len() == 0 {
        None
    } else if s.last().0 == k {
        Some(s.last().1)
    } else {
        find_shape(s.drop_last(), k)
    }
}

/// The keys among `s` whose box intersects `q`, in entry order.
pub open spec fn query_spec(s: Seq<(ProjectKind, AABB)>, q: AABB) -> Seq<ProjectKind>
    decreases s.len(),
{
    if s.len() == 0 {
        Seq::empty()
    } else {
        let rest = query_spec(s.drop_last(), q);
        if s.last().1.spec_intersects(q) {
            rest.push(s.last().0)
        } else {
            rest
        }
    }
}

/// Keys with unique entries are found at their entry.
proof fn lemma_find_at(s: Seq<(ProjectKind, AABB)>, i: int)
    requires
        forall|a: int, b: int| 0 <= a < b < s.len() ==> (#[trigger] s[a]).0 != (#[trigger] s[b]).0,
        0 <= i < s.len(),
    ensures
        find_shape(s, s[i].0) == Some(s[i].1),
    decreases s.len(),
{
    if i < s.len() - 1 {
        lemma_find_at(s.drop_last(), i);
    }
}

/// A key no entry carries is not found.
proof fn lemma_find_absent(s: Seq<(ProjectKind, AABB)>, k: ProjectKind)
    requires
        forall|j: int| 0 <= j < s.len() ==> (#[trigger] s[j]).0 != k,
    ensures
        find_shape(s, k) is None,
    decreases s.len(),
{
    if s.len() > 0 {
        lemma_find_absent(s.drop_last(), k);
    }
}

/// Overwriting one entry leaves every other key's lookup unchanged.
proof fn lemma_find_update_other(
    s: Seq<(ProjectKind, AABB)>,
    i: int,
    e: (ProjectKind, AABB),
    k2: ProjectKind,
)
    requires
        0 <= i < s.len(),
        s[i].0 != k2,
        e.0 != k2,
    ensures
        find_shape(s.update(i, e), k2) == find_shape(s, k2),
    decreases s.len(),
{
    let t = s.update(i, e);
    if i == s.len() - 1 {
        assert(t.drop_last() =~= s.drop_last());
    } else {
        assert(t.drop_last() =~= s.drop_last().update(i, e));
        lemma_find_update_other(s.drop_last(), i, e, k2);
    }
}

/// Removing one entry leaves every other key's lookup unchanged.
proof fn lemma_find_remove_other(s: Seq<(ProjectKind, AABB)>, i: int, k2: ProjectKind)
    requires
        0 <= i < s.len(),
        s[i].0 != k2,
    ensures
        find_shape(s.remove(i), k2) == find_shape(s, k2),
    decreases s.len(),
{
    let t = s.remove(i);
    if i == s.len() - 1 {
        assert(t =~= s.drop_last());
    } else {
        assert(t.drop_last() =~= s.drop_last().remove(i));
        assert(t.last() == s.last());
        lemma_find_remove_other(s.drop_last(), i, k2);
    }
}

pub struct SpatialMap {
    pub entries: Vec<(ProjectKind, AABB)>,
}

impl SpatialMap {
    /// Keys are unique and every stored box is well-formed.
    pub open spec fn wf(self) -> bool {
        &&& forall|i: int, j: int|
            0 <= i < j < self.entries@.len() ==> (#[trigger] self.entries@[i]).0 != (
            #[trigger] self.entries@[j]).0
        &&& forall|i: int| 0 <= i < self.entries@.len() ==> (#[trigger] self.entries@[i]).1.wf()
    }

    pub open spec fn s_contains_key(self, k: ProjectKind) -> bool {
        find_shape(self.entries@, k) is Some
    }

    pub open spec fn s_shape_of(self, k: ProjectKind) -> AABB {
        find_shape(self.entries@, k)->Some_0
    }

    pub fn new() -> (r: Self)
        ensures
            r.wf(),
            r.entries@ == Seq::<(ProjectKind, AABB)>::empty(),
            forall|k: ProjectKind| !r.s_contains_key(k),
    {
        SpatialMap { entries: Vec::new() }
    }

    fn find(&self, k: ProjectKind) -> (r: Option<usize>)
        requires
            self.wf(),
        ensures
            r is Some ==> {
                let i = r.unwrap() as int;
                &&& 0 <= i < self.entries@.len()
                &&& self.entries@[i].0 == k
                &&& self.s_contains_key(k)
            },
            r is None ==> !self.s_contains_key(k) && forall|j: int|
                0 <= j < self.entries@.len() ==> (#[trigger] self.entries@[j]).0 != k,
    {
        let n = self.entries.len();
        let mut i: usize = 0;
        while i < n
            invariant
                0 <= i <= n,
                n == self.entries@.len(),
                self.wf(),
                forall|j: int| 0 <= j < i ==> (#[trigger] self.entries@[j]).0 != k,
            decreases n - i,
        {
            if self.entries[i].0 == k {
                proof {
                    lemma_find_at(self.entries@, i as int);
                }
                return Some(i);
            }
            i = i + 1;
        }
        proof {
            lemma_find_absent(self.entries@, k);
        }
        None
    }

    /// Whether the index holds an entry for `k`.
    pub fn contains_key(&self, k: ProjectKind) -> (r: bool)
        requires
            self.wf(),
        ensures
            r <==> self.s_contains_key(k),
    {
        self.find(k).is_some()
    }

    /// Registers `k` under `bbox`; a key already present keeps a single
    /// entry and takes the new box.
    pub fn insert(&mut self, k: ProjectKind, bbox: AABB)
        requires
            old(self).wf(),
            bbox.wf(),
            old(self).entries@.len() < usize::MAX,
        ensures
            final(self).wf(),
            final(self).entries@.len() <= old(self).entries@.len() + 1,
            final(self).s_contains_key(k),
            final(self).s_shape_of(k) == bbox,
            forall|k2: ProjectKind|
                k2 != k ==> (#[trigger] final(self).s_contains_key(k2) <==> old(
                self).s_contains_key(k2)),
            forall|k2: ProjectKind|
                k2 != k ==> #[trigger] find_shape(final(self).entries@, k2) == find_shape(
                    old(self).entries@,
                    k2,
                ),
    {
        let ghost s0 = self.entries@;
        match self.find(k) {
            Some(i) => {
                let r = &mut self.entries[i];
                *r = (k, bbox);
                proof {
                    assert(self.entries@ =~= s0.update(i as int, (k, bbox)));
                    assert(self.wf());
                    lemma_find_at(self.entries@, i as int);
                    assert forall|k2: ProjectKind| k2 != k implies find_shape(self.entries@, k2)
                        == find_shape(s0, k2) by {
                        lemma_find_update_other(s0, i as int, (k, bbox), k2);
                    };
                }
            },
            None => {
                self.entries.push((k, bbox));
                proof {
                    let s1 = self.entries@;
                    assert(s1.last() == (k, bbox));
                    assert(s1.drop_last() =~= s0);
                    assert forall|a: int, b: int| 0 <= a < b < s1.len() implies (
                    #[trigger] s1[a]).0 != (#[trigger] s1[b]).0 by {
                        if b < s1.len() - 1 {
                            assert(s1[a] == s0[a] && s1[b] == s0[b]);
                        } else {
                            assert(s1[a] == s0[a]);
                        }
                    };
                }
            },
        }
    }

    /// Drops the entry for `k`. Removing a key that is not present is a
    /// recoverable no-op, reported by the result (defensive against double
    /// cleanup).
    pub fn remove(&mut self, k: ProjectKind) -> (was_present: bool)
        requires
            old(self).wf(),
        ensures
            final(self).wf(),
            final(self).entries@.len() <= old(self).entries@.len(),
            was_present <==> old(self).s_contains_key(k),
            !final(self).s_contains_key(k),
            forall|k2: ProjectKind|
                k2 != k ==> (#[trigger] final(self).s_contains_key(k2) <==> old(
                self).s_contains_key(k2)),
            forall|k2: ProjectKind|
                k2 != k ==> #[trigger] find_shape(final(self).entries@, k2) == find_shape(
                    old(self).entries@,
                    k2,
                ),
    {
        let ghost s0 = self.entries@;
        match self.find(k) {
            Some(i) => {
                self.entries.remove(i);
                proof {
                    let s1 = self.entries@;
                    assert(s1 =~= s0.remove(i as int));
                    assert forall|a: int, b: int| 0 <= a < b < s1.len() implies (
                    #[trigger] s1[a]).0 != (#[trigger] s1[b]).0 by {
                        let a0: int = if a < i { a } else { a + 1 };
                        let b0: int = if b < i { b } else { b + 1 };
                        assert(s1[a] == s0[a0] && s1[b] == s0[b0]);
                    };
                    assert(self.wf());
                    assert forall|j: int| 0 <= j < s1.len() implies (#[trigger] s1[j]).0 != k by {
                        let j0: int = if j < i { j } else { j + 1 };
                        assert(s1[j] == s0[j0]);
                    };
                    lemma_find_absent(s1, k);
                    assert forall|k2: ProjectKind| k2 != k implies find_shape(s1, k2)
                        == find_shape(s0, k2) by {
                        lemma_find_remove_other(s0, i as int, k2);
                    };
                }
                true
            },
            None => false,
        }
    }

    /// Replaces the box of a present key; reports whether it was present
    /// (an absent key is a recoverable no-op).
    pub fn update(&mut self, k: ProjectKind, bbox: AABB) -> (was_present: bool)
        requires
            old(self).wf(),
            bbox.wf(),
        ensures
            final(self).wf(),
            final(self).entries@.len() == old(self).entries@.len(),
            was_present <==> old(self).s_contains_key(k),
            final(self).s_contains_key(k) <==> old(self).s_contains_key(k),
            old(self).s_contains_key(k) ==> final(self).s_shape_of(k) == bbox,
            forall|k2: ProjectKind|
                k2 != k ==> (#[trigger] final(self).s_contains_key(k2) <==> old(
                self).s_contains_key(k2)),
            forall|k2: ProjectKind|
                k2 != k ==> #[trigger] find_shape(final(self).entries@, k2) == find_shape(
                    old(self).entries@,
                    k2,
                ),
    {
        let ghost s0 = self.entries@;
        match self.find(k) {
            Some(i) => {
                let r = &mut self.entries[i];
                *r = (k, bbox);
                proof {
                    assert(self.entries@ =~= s0.update(i as int, (k, bbox)));
                    assert(self.wf());
                    lemma_find_at(self.entries@, i as int);
                    assert forall|k2: ProjectKind| k2 != k implies find_shape(self.entries@, k2)
                        == find_shape(s0, k2) by {
                        lemma_find_update_other(s0, i as int, (k, bbox), k2);
                    };
                }
                true
            },
            None => false,
        }
    }

    fn query_box(&self, q: AABB) -> (r: Vec<ProjectKind>)
        ensures
            r@ == query_spec(self.entries@, q),
    {
        let n = self.entries.len();
        let mut r: Vec<ProjectKind> = Vec::new();
        let mut i: usize = 0;
        while i < n
            invariant
                0 <= i <= n,
                n == self.entries@.len(),
                r@ == query_spec(self.entries@.take(i as int), q),
            decreases n - i,
        {
            proof {
                assert(self.entries@.take(i + 1).drop_last() =~= self.entries@.take(i as int));
                assert(self.entries@.take(i + 1).last() == self.entries@[i as int]);
            }
            let e = self.entries[i];
            if e.1.intersects(q) {
                r.push(e.0);
            }
            i = i + 1;
        }
        proof {
            assert(self.entries@.take(n as int) =~= self.entries@);
        }
        r
    }

    /// Candidate keys whose box meets the square of half-width `radius`
    /// around `center`.
    pub fn query_around(&self, center: Vec2, radius: i64) -> (r: Vec<ProjectKind>)
        requires
            center.in_bounds(),
            0 <= radius <= MAX_COORD,
        ensures
            r@ == query_spec(self.entries@, AABB::query_box_around(center, radius)),
    {
        let q = (AABB { lo: center, hi: center }).inflate(radius);
        self.query_box(q)
    }

    /// Candidate keys whose box meets the rectangle `q`.
    pub fn query_rect(&self, q: AABB) -> (r: Vec<ProjectKind>)
        ensures
            r@ == query_spec(self.entries@, q),
    {
        self.query_box(q)
    }

    /// Candidate keys whose box contains the point `p`.
    pub fn query_point(&self, p: Vec2) -> (r: Vec<ProjectKind>)
        ensures
            r@ == query_spec(self.entries@, AABB { lo: p, hi: p }),
    {
        self.query_box(AABB { lo: p, hi: p })
    }

    /// Every stored box, for diagnostics.
    pub fn debug_grid(&self) -> (r: Vec<AABB>)
        ensures
            r@.len() == self.entries@.len(),
            forall|i: int| 0 <= i < r@.len() ==> r@[i] == (#[trigger] self.entries@[i]).1,
    {
        let n = self.entries.len();
        let mut r: Vec<AABB> = Vec::new();
        let mut i: usize = 0;
        while i < n
            invariant
                0 <= i <= n,
                n == self.entries@.len(),
                r@.len() == i,
                forall|j: int| 0 <= j < i ==> r@[j] == (#[trigger] self.entries@[j]).1,
            decreases n - i,
        {
            r.push(self.entries[i].1);
            i = i + 1;
        }
        r
    }
}

impl AABB {
    /// The query rectangle of `query_around`: the box of half-width
    /// `radius` around `center`, clamped to the coordinate space.
    pub open spec fn query_box_around(center: Vec2, radius: i64) -> AABB {
        (AABB { lo: center, hi: center }).spec_inflate(radius)
    }
}

/// A found key has an entry carrying the found box.
pub proof fn lemma_find_shape_index(s: Seq<(ProjectKind, AABB)>, k: ProjectKind)
    requires
        find_shape(s, k) is Some,
    ensures
        exists|i: int|
            0 <= i < s.len() && (#[trigger] s[i]).0 == k && s[i].1 == find_shape(s, k)->Some_0,
    decreases s.len(),
{
    if s.len() > 0 {
        if s.last().0 == k {
            assert(s[s.len() - 1].0 == k && s[s.len() - 1].1 == find_shape(s, k)->Some_0);
        } else {
            lemma_find_shape_index(s.drop_last(), k);
            let i = choose|i: int|
                0 <= i < s.drop_last().len() && (#[trigger] s.drop_last()[i]).0 == k
                    && s.drop_last()[i].1 == find_shape(s.drop_last(), k)->Some_0;
            assert(s[i].0 == k && s[i].1 == find_shape(s, k)->Some_0);
        }
    }
}

/// A key a query returns has an entry, and its stored box meets the query.
pub proof fn lemma_query_sound(s: Seq<(ProjectKind, AABB)>, q: AABB, k: ProjectKind)
    requires
        query_spec(s, q).contains(k),
    ensures
        exists|i: int| 0 <= i < s.len() && (#[trigger] s[i]).0 == k && s[i].1.spec_intersects(q),
    decreases s.len(),
{
    if s.len() > 0 {
        let rest = query_spec(s.drop_last(), q);
        if s.last().1.spec_intersects(q) && s.last().0 == k && query_spec(s, q).last() == k {
        }
        if rest.contains(k) {
            lemma_query_sound(s.drop_last(), q, k);
            let i = choose|i: int|
                0 <= i < s.drop_last().len() && (#[trigger] s.drop_last()[i]).0 == k
                    && s.drop_last()[i].1.spec_intersects(q);
            assert(s[i].0 == k && s[i].1.spec_intersects(q));
        } else {
            assert(s.last().0 == k && s.last().1.spec_intersects(q));
            assert(s[s.len() - 1].0 == k && s[s.len() - 1].1.spec_intersects(q));
        }
    }
}

/// A key a query returns is a key of the index.
pub proof fn lemma_query_key_present(sm: SpatialMap, q: AABB, k: ProjectKind)
    requires
        sm.wf(),
        query_spec(sm.entries@, q).contains(k),
    ensures
        sm.s_contains_key(k),
{
    lemma_query_sound(sm.entries@, q, k);
    let i = choose|i: int|
        0 <= i < sm.entries@.len() && (#[trigger] sm.entries@[i]).0 == k
            && sm.entries@[i].1.spec_intersects(q);
    lemma_find_at(sm.entries@, i);
}

/// A key whose entry meets the query is among the query's results.
pub proof fn lemma_query_complete(s: Seq<(ProjectKind, AABB)>, q: AABB, i: int)
    requires
        0 <= i < s.len(),
        s[i].1.spec_intersects(q),
    ensures
        query_spec(s, q).contains(s[i].0),
    decreases s.len(),
{
    if i == s.len() - 1 {
        assert(query_spec(s, q).last() == s[i].0);
    } else {
        lemma_query_complete(s.drop_last(), q, i);
        let rest = query_spec(s.drop_last(), q);
        let j = choose|j: int| 0 <= j < rest.len() && rest[j] == s[i].0;
        if s.last().1.spec_intersects(q) {
            assert(query_spec(s, q)[j] == s[i].0);
        }
    }
}

} // verus!
