//! A set of object ids, used for the two shared coordination sets
//! (`receiving` and `deleting`) that guard against duplicate transfers
//! and unsafe deletions.

use vstd::prelude::*;

use crate::request::{has_duplicate, raw_ids_view};
use crate::ObjectId;

verus! {

/// Whether any of the listed ids is in the set.
pub open spec fn any_in(s: Set<Seq<u8>>, ids: Seq<Seq<u8>>) -> bool {
    exists|i: int| 0 <= i < ids.len() && s.contains(#[trigger] ids[i])
}

/// An id is in flight with at most one party at a time: once a claimant
/// has inserted its ids into a coordination set, any other claim that
/// shares an id with it finds that id present, and the guards built on
/// [`any_in`] turn it away. The same argument covers both the
/// `receiving` and the `deleting` set.
pub proof fn lemma_exclusive_claim(s: Set<Seq<u8>>, claimed: Seq<Seq<u8>>, other: Seq<Seq<u8>>)
    requires
        exists|i: int, j: int|
            0 <= i < claimed.len() && 0 <= j < other.len() && claimed[i] == other[j],
    ensures
        any_in(s.union(claimed.to_set()), other),
{
    let (i, j) = choose|i: int, j: int|
        0 <= i < claimed.len() && 0 <= j < other.len() && claimed[i] == other[j];
    assert(claimed.contains(claimed[i]));
    assert(s.union(claimed.to_set()).contains(other[j]));
}

/// A set of 20-byte object ids with exclusive insert.
pub struct IdSet {
    items: Vec<ObjectId>,
}

impl View for IdSet {
    type V = Set<Seq<u8>>;

    closed spec fn view(&self) -> Set<Seq<u8>> {
        raw_ids_view(self.items@).to_set()
    }
}

impl IdSet {
    #[verifier::type_invariant]
    spec fn inv(self) -> bool {
        !has_duplicate(raw_ids_view(self.items@))
    }

    /// Creates an empty set.
    pub fn new() -> (r: Self)
        ensures
            r@ == Set::<Seq<u8>>::empty(),
    {
        let r = IdSet { items: Vec::new() };
        proof {
            assert(r@ =~= Set::<Seq<u8>>::empty());
        }
        r
    }

    /// Returns true if the set holds the given id.
    pub fn contains(&self, id: &ObjectId) -> (r: bool)
        ensures
            r == self@.contains(id@),
    {
        let n = self.items.len();
        let mut i: usize = 0;
        while i < n
            invariant
                n == self.items@.len(),
                i <= n,
                forall|j: int| 0 <= j < i ==> raw_ids_view(self.items@)[j] != id@,
            decreases n - i,
        {
            if crate::request::raw_ids_equal(&self.items[i], id) {
                proof {
                    assert(raw_ids_view(self.items@)[i as int] == id@);
                    assert(raw_ids_view(self.items@).contains(id@));
                }
                return true;
            }
            i += 1;
        }
        proof {
            assert(!raw_ids_view(self.items@).contains(id@));
        }
        false
    }

    /// Adds an id to the set; adding an id already present leaves the set
    /// unchanged.
    pub fn insert(&mut self, id: ObjectId)
        ensures
            final(self)@ == old(self)@.insert(id@),
    {
        proof {
            use_type_invariant(&*self);
        }
        if self.contains(&id) {
            proof {
                assert(old(self)@ =~= old(self)@.insert(id@));
            }
            return ;
        }
        let ghost prev = self.items@;
        let mut items: Vec<ObjectId> = Vec::new();
        std::mem::swap(&mut items, &mut self.items);
        items.push(id);
        proof {
            broadcast use vstd::seq_lib::lemma_seq_contains_after_push;

            assert(raw_ids_view(items@) =~= raw_ids_view(prev).push(id@));
            crate::request::lemma_push_no_dup_pub(raw_ids_view(prev), id@);
            assert(raw_ids_view(items@).to_set() =~= raw_ids_view(prev).to_set().insert(id@));
        }
        self.items = items;
    }

    /// Removes an id from the set; removing an absent id leaves the set
    /// unchanged.
    pub fn remove(&mut self, id: &ObjectId)
        ensures
            final(self)@ == old(self)@.remove(id@),
    {
        proof {
            use_type_invariant(&*self);
        }
        let n = self.items.len();
        let mut i: usize = 0;
        while i < n
            invariant
                n == self.items@.len(),
                i <= n,
                *self == *old(self),
                forall|j: int| 0 <= j < i ==> raw_ids_view(self.items@)[j] != id@,
            decreases n - i,
        {
            if crate::request::raw_ids_equal(&self.items[i], id) {
                proof {
                    use_type_invariant(&*self);
                }
                let ghost prev = self.items@;
                let mut items: Vec<ObjectId> = Vec::new();
                std::mem::swap(&mut items, &mut self.items);
                items.remove(i);
                proof {
                    lemma_raw_remove(prev, i as int, id@);
                }
                self.items = items;
                return ;
            }
            i += 1;
        }
        proof {
            assert(!raw_ids_view(self.items@).contains(id@));
            assert(self@ =~= old(self)@.remove(id@));
        }
    }
}

/// Removing the only occurrence of an id from an id list removes exactly
/// that id from the corresponding set.
proof fn lemma_raw_remove(s: Seq<ObjectId>, i: int, id: Seq<u8>)
    requires
        !has_duplicate(raw_ids_view(s)),
        0 <= i < s.len(),
        raw_ids_view(s)[i] == id,
    ensures
        raw_ids_view(s.remove(i)).to_set() =~= raw_ids_view(s).to_set().remove(id),
        !has_duplicate(raw_ids_view(s.remove(i))),
{
    let v = raw_ids_view(s);
    let w = raw_ids_view(s.remove(i));
    assert(w =~= v.remove(i));
    v.remove_ensures(i);
    assert forall|k: int, l: int| 0 <= k < l < w.len() implies w[k] != w[l] by {
        let k0 = if k < i {
            k
        } else {
            k + 1
        };
        let l0 = if l < i {
            l
        } else {
            l + 1
        };
        assert(v[k0] != v[l0]);
    }
    assert forall|a: Seq<u8>| w.to_set().contains(a) implies v.to_set().remove(id).contains(
        a,
    ) by {
        let k = choose|k: int| 0 <= k < w.len() && w[k] == a;
        let k0 = if k < i {
            k
        } else {
            k + 1
        };
        assert(v[k0] == a);
        assert(v.contains(a));
        if a == id {
            assert(v[k0] == v[i] && k0 != i);
        }
    }
    assert forall|a: Seq<u8>| v.to_set().remove(id).contains(a) implies w.to_set().contains(
        a,
    ) by {
        let k = choose|k: int| 0 <= k < v.len() && v[k] == a;
        if k < i {
            assert(w[k] == a);
        } else {
            assert(k != i);
            assert(w[k - 1] == a);
        }
        assert(w.contains(a));
    }
}

} // verus!
