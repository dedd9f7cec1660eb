//! The known-peer cache: a bounded, insertion-ordered set of key ids with a
//! cursor that stays valid while the cache grows.
//!
//! The backing store is append-only, so a cursor is nothing but a count of
//! elements already yielded: concurrent insertions can only lengthen the
//! tail it has not visited yet.

use vstd::prelude::*;

verus! {

pub const MAX_PEERS: u32 = 65536;

/// A bounded, insertion-ordered, duplicate-free set of 32-byte key ids.
pub struct PeerCache {
    order: Vec<[u8; 32]>,
    limit: u32,
}

/// A stable traversal handle: the number of elements yielded so far.
#[derive(Clone, Copy, Debug, PartialEq, Eq)]
pub struct PeerCursor {
    pub pos: usize,
}

impl PeerCache {
    /// The ids in insertion order.
    pub closed spec fn view_seq(&self) -> Seq<Seq<u8>> {
        self.order@.map_values(|k: [u8; 32]| k@)
    }

    pub closed spec fn limit_spec(&self) -> u32 {
        self.limit
    }

    /// Well-formed: within its bound and free of duplicates.
    pub closed spec fn wf(&self) -> bool {
        &&& self.order@.len() <= self.limit
        &&& forall|i: int, j: int|
            0 <= i < j < self.order@.len() ==> self.order@[i]@ != self.order@[j]@
    }

    /// Whether the cache holds `k`, as a predicate over the view.
    pub open spec fn contains_spec(&self, k: Seq<u8>) -> bool {
        exists|i: int| 0 <= i < self.view_seq().len() && self.view_seq()[i] == k
    }

    /// An empty cache bounded by `limit`.
    pub fn with_limit(limit: u32) -> (r: PeerCache)
        ensures
            r.wf(),
            r.view_seq().len() == 0,
            r.limit_spec() == limit,
    {
        let r = PeerCache { order: Vec::new(), limit };
        proof {
            assert(r.view_seq().len() == 0);
        }
        r
    }

    /// How many ids the cache holds.
    pub fn count(&self) -> (r: usize)
        ensures
            r == self.view_seq().len(),
    {
        self.order.len()
    }

    /// Whether `k` is already present.
    pub fn contains(&self, k: &[u8; 32]) -> (r: bool)
        ensures
            r == self.contains_spec(k@),
    {
        let mut i: usize = 0;
        while i < self.order.len()
            invariant
                0 <= i <= self.order@.len(),
                forall|j: int| 0 <= j < i ==> self.order@[j]@ != k@,
            decreases self.order@.len() - i,
        {
            if crate::types::arr32_eq(&self.order[i], k) {
                proof {
                    assert(self.view_seq()[i as int] == k@);
                }
                return true;
            }
            i = i + 1;
        }
        proof {
            assert forall|j: int| 0 <= j < self.view_seq().len() implies self.view_seq()[j]
                != k@ by {
                assert(self.view_seq()[j] == self.order@[j]@);
            }
        }
        false
    }

    /// Insert `k` if it is new and the bound leaves room. Returns whether
    /// the cache changed; a duplicate or a full cache leaves it as it was.
    pub fn put(&mut self, k: [u8; 32]) -> (fresh: bool)
        requires
            old(self).wf(),
        ensures
            final(self).wf(),
            final(self).limit_spec() == old(self).limit_spec(),
            fresh == (!old(self).contains_spec(k@) && old(self).view_seq().len() < old(
                self,
            ).limit_spec()),
            fresh ==> final(self).view_seq() == old(self).view_seq().push(k@),
            !fresh ==> final(self).view_seq() == old(self).view_seq(),
    {
        if self.contains(&k) {
            return false;
        }
        if self.order.len() >= self.limit as usize {
            return false;
        }
        let ghost pre = self.order@;
        self.order.push(k);
        proof {
            assert(self.view_seq() =~= pre.map_values(|q: [u8; 32]| q@).push(k@));
            assert forall|i: int, j: int|
                0 <= i < j < self.order@.len() implies self.order@[i]@ != self.order@[j]@ by {
                if j == self.order@.len() - 1 {
                    assert(pre.map_values(|q: [u8; 32]| q@)[i] == pre[i]@);
                } else {
                    assert(pre[i]@ != pre[j]@);
                }
            }
        }
        true
    }

    /// The id at a given rank, in insertion order.
    pub fn get_at(&self, i: usize) -> (r: Option<[u8; 32]>)
        ensures
            i < self.view_seq().len() ==> (r matches Some(a) && a@ == self.view_seq()[i as int]),
            i >= self.view_seq().len() ==> r is None,
    {
        if i < self.order.len() {
            Some(self.order[i])
        } else {
            None
        }
    }

    /// A fresh cursor together with the first id, if any.
    pub fn first(&self) -> (r: (PeerCursor, Option<[u8; 32]>))
        ensures
            r.1 matches Some(a) ==> self.view_seq().len() > 0 && a@ == self.view_seq()[0]
                && r.0.pos == 1,
            r.1 is None ==> self.view_seq().len() == 0 && r.0.pos == 0,
    {
        if self.order.len() > 0 {
            (PeerCursor { pos: 1 }, Some(self.order[0]))
        } else {
            (PeerCursor { pos: 0 }, None)
        }
    }

    /// Advance the cursor: the next unvisited id, if one exists by now.
    pub fn next(&self, cursor: &mut PeerCursor) -> (r: Option<[u8; 32]>)
        ensures
            old(cursor).pos < self.view_seq().len() ==> (r matches Some(a)
                && a@ == self.view_seq()[old(cursor).pos as int]
                && final(cursor).pos == old(cursor).pos + 1),
            old(cursor).pos >= self.view_seq().len() ==> (r is None && final(cursor).pos == old(
                cursor,
            ).pos),
    {
        if cursor.pos < self.order.len() {
            let a = self.order[cursor.pos];
            cursor.pos = cursor.pos + 1;
            Some(a)
        } else {
            None
        }
    }

    /// Re-yield the id the cursor returned last, if it returned one.
    pub fn given(&self, cursor: &PeerCursor) -> (r: Option<[u8; 32]>)
        ensures
            0 < cursor.pos <= self.view_seq().len() ==> (r matches Some(a)
                && a@ == self.view_seq()[cursor.pos - 1]),
            !(0 < cursor.pos <= self.view_seq().len()) ==> r is None,
    {
        if cursor.pos > 0 && cursor.pos <= self.order.len() {
            Some(self.order[cursor.pos - 1])
        } else {
            None
        }
    }
}

} // verus!
