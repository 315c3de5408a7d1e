//! Arena storage for map entities, addressed by stable handles.
//!
//! Every entity lives in a slot; removing it leaves the slot permanently
//! vacant, so a handle kept by anyone else can never alias a later entity:
//! a stale handle simply reads as absent, which is the contract the rest of
//! the network relies on for live edits.

use vstd::prelude::*;

verus! {

pub struct Arena<T> {
    pub slots: Vec<Option<T>>,
    pub live: usize,
}

/// The number of occupied slots in `s`.
pub open spec fn live_count<T>(s: Seq<Option<T>>) -> int
    decreases s.len(),
{
    if s.len() == 0 {
        0
    } else {
        live_count(s.drop_last()) + if s.last() is Some {
            1int
        } else {
            0int
        }
    }
}

proof fn lemma_live_count_bounds<T>(s: Seq<Option<T>>)
    ensures
        0 <= live_count(s) <= s.len(),
    decreases s.len(),
{
    if s.len() > 0 {
        lemma_live_count_bounds(s.drop_last());
    }
}

proof fn lemma_live_count_update<T>(s: Seq<Option<T>>, k: int, v: Option<T>)
    requires
        0 <= k < s.len(),
    ensures
        live_count(s.update(k, v)) == live_count(s) + (if v is Some {
            1int
        } else {
            0int
        }) - (if s[k] is Some {
            1int
        } else {
            0int
        }),
    decreases s.len(),
{
    let t = s.update(k, v);
    if k == s.len() - 1 {
        assert(t.drop_last() =~= s.drop_last());
    } else {
        assert(t.drop_last() =~= s.drop_last().update(k, v));
        lemma_live_count_update(s.drop_last(), k, v);
    }
}

impl<T> Arena<T> {
    pub open spec fn slots_seq(self) -> Seq<Option<T>> {
        self.slots@
    }

    /// A handle is valid while its slot is occupied.
    pub open spec fn valid(self, k: int) -> bool {
        0 <= k < self.slots@.len() && self.slots@[k] is Some
    }

    pub open spec fn s_get(self, k: int) -> T {
        self.slots@[k]->Some_0
    }

    pub open spec fn s_len(self) -> int {
        live_count(self.slots@)
    }

    /// The live counter matches the slots.
    pub open spec fn wf(self) -> bool {
        self.live == live_count(self.slots@)
    }

    pub fn new() -> (r: Self)
        ensures
            r.wf(),
            r.slots_seq() == Seq::<Option<T>>::empty(),
            r.s_len() == 0,
    {
        Arena { slots: Vec::new(), live: 0 }
    }

    /// Stores `v` in a fresh slot and hands back its handle. No existing
    /// handle is disturbed.
    pub fn insert(&mut self, v: T) -> (k: usize)
        requires
            old(self).wf(),
            old(self).slots_seq().len() < usize::MAX,
        ensures
            final(self).wf(),
            k == old(self).slots_seq().len(),
            final(self).slots_seq() == old(self).slots_seq().push(Some(v)),
            final(self).valid(k as int),
            final(self).s_get(k as int) == v,
            final(self).s_len() == old(self).s_len() + 1,
            !old(self).valid(k as int),
            forall|j: int| j != k ==> (#[trigger] final(self).valid(j) <==> old(self).valid(j)),
            forall|j: int|
                j != k && old(self).valid(j) ==> #[trigger] final(self).s_get(j) == old(
                self).s_get(j),
    {
        let k = self.slots.len();
        proof {
            lemma_live_count_bounds(self.slots@);
            assert(self.slots@.push(Some(v)).drop_last() =~= self.slots@);
        }
        self.slots.push(Some(v));
        self.live = self.live + 1;
        k
    }

    pub fn get(&self, k: usize) -> (r: Option<&T>)
        ensures
            self.valid(k as int) ==> r == Some(&self.s_get(k as int)),
            !self.valid(k as int) ==> r is None,
    {
        if k < self.slots.len() {
            match &self.slots[k] {
                Some(v) => Some(v),
                None => None,
            }
        } else {
            None
        }
    }

    pub fn contains(&self, k: usize) -> (r: bool)
        ensures
            r <==> self.valid(k as int),
    {
        k < self.slots.len() && self.slots[k].is_some()
    }

    /// Replaces the entity behind a live handle.
    pub fn set(&mut self, k: usize, v: T)
        requires
            old(self).wf(),
            old(self).valid(k as int),
        ensures
            final(self).wf(),
            final(self).slots_seq() == old(self).slots_seq().update(k as int, Some(v)),
            final(self).valid(k as int),
            final(self).s_get(k as int) == v,
            final(self).s_len() == old(self).s_len(),
            forall|j: int| #[trigger] final(self).valid(j) <==> old(self).valid(j),
            forall|j: int|
                old(self).valid(j) && j != k ==> #[trigger] final(self).s_get(j) == old(
                self).s_get(j),
    {
        proof {
            lemma_live_count_update(self.slots@, k as int, Some(v));
        }
        let r = &mut self.slots[k];
        *r = Some(v);
    }

    /// Removes the entity behind a handle; the handle (and any copy of it)
    /// is invalid afterwards, and no other handle is disturbed. Removing
    /// through a stale handle changes nothing.
    pub fn remove(&mut self, k: usize) -> (r: Option<T>)
        requires
            old(self).wf(),
        ensures
            final(self).wf(),
            old(self).valid(k as int) ==> {
                &&& r == Some(old(self).s_get(k as int))
                &&& final(self).slots_seq() == old(self).slots_seq().update(k as int, None::<T>)
                &&& final(self).s_len() == old(self).s_len() - 1
            },
            !old(self).valid(k as int) ==> r is None && final(self).slots_seq() == old(
            self).slots_seq(),
            !final(self).valid(k as int),
            forall|j: int| j != k ==> (#[trigger] final(self).valid(j) <==> old(self).valid(j)),
            forall|j: int|
                old(self).valid(j) && j != k ==> #[trigger] final(self).s_get(j) == old(
                self).s_get(j),
    {
        if k < self.slots.len() {
            proof {
                lemma_live_count_update(self.slots@, k as int, None::<T>);
                lemma_live_count_bounds(self.slots@);
                if self.slots@[k as int] is Some {
                    assert(live_count(self.slots@) >= 1) by {
                        lemma_live_count_lower(self.slots@, k as int);
                    }
                }
            }
            let r = &mut self.slots[k];
            let v = r.take();
            if v.is_some() {
                self.live = self.live - 1;
            }
            v
        } else {
            None
        }
    }

    pub fn len(&self) -> (r: usize)
        requires
            self.wf(),
        ensures
            r == self.s_len(),
    {
        self.live
    }

    pub fn is_empty(&self) -> (r: bool)
        requires
            self.wf(),
        ensures
            r <==> self.s_len() == 0,
    {
        self.live == 0
    }

    /// The number of slots ever allocated (valid handles are below it).
    pub fn capacity(&self) -> (r: usize)
        ensures
            r == self.slots_seq().len(),
    {
        self.slots.len()
    }
}

/// A slot holding a value forces the live count to be at least one.
proof fn lemma_live_count_lower<T>(s: Seq<Option<T>>, k: int)
    requires
        0 <= k < s.len(),
        s[k] is Some,
    ensures
        live_count(s) >= 1,
    decreases s.len(),
{
    if k < s.len() - 1 {
        lemma_live_count_lower(s.drop_last(), k);
        lemma_live_count_bounds(s.drop_last());
    } else {
        lemma_live_count_bounds(s.drop_last());
    }
}

} // verus!
