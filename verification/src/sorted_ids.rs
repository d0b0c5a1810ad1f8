//! An ordered set of track identifiers, kept as a strictly increasing vector.

use vstd::prelude::*;

verus! {

/// A strictly increasing sequence holds each of its elements once, in order.
pub open spec fn strictly_increasing(s: Seq<u32>) -> bool {
    forall|i: int, j: int| 0 <= i < j < s.len() ==> s[i] < s[j]
}

/// An ordered set of `u32` identifiers, iterated in increasing order.
pub struct SortedIds {
    ids: Vec<u32>,
}

impl SortedIds {
    /// The identifiers, in increasing order.
    pub closed spec fn seq(&self) -> Seq<u32> {
        self.ids@
    }

    pub closed spec fn wf(&self) -> bool {
        strictly_increasing(self.ids@)
    }

    /// The identifiers as a set.
    pub open spec fn set(&self) -> Set<u32> {
        self.seq().to_set()
    }

    pub proof fn lemma_wf_facts(&self)
        requires
            self.wf(),
        ensures
            strictly_increasing(self.seq()),
            self.seq().no_duplicates(),
            self.set().len() == self.seq().len(),
            self.set().finite(),
            forall|x: u32| self.set().contains(x) <==> self.seq().contains(x),
    {
        assert forall|i: int, j: int|
            0 <= i < self.seq().len() && 0 <= j < self.seq().len() && i != j implies self.seq()[i]
            != self.seq()[j] by {
            if i < j {
                assert(self.seq()[i] < self.seq()[j]);
            } else {
                assert(self.seq()[j] < self.seq()[i]);
            }
        }
        assert(self.seq().no_duplicates());
        self.seq().unique_seq_to_set();
        vstd::seq_lib::seq_to_set_is_finite(self.seq());
    }

    pub fn new() -> (r: Self)
        ensures
            r.wf(),
            r.seq() == Seq::<u32>::empty(),
            r.set() == Set::<u32>::empty(),
    {
        let r = SortedIds { ids: Vec::new() };
        assert(r.set() =~= Set::<u32>::empty());
        r
    }

    pub fn len(&self) -> (r: usize)
        requires
            self.wf(),
        ensures
            r == self.seq().len(),
            r == self.set().len(),
    {
        proof {
            self.lemma_wf_facts();
        }
        self.ids.len()
    }

    pub fn contains(&self, id: u32) -> (r: bool)
        ensures
            r == self.seq().contains(id),
            r == self.set().contains(id),
    {
        let mut i: usize = 0;
        while i < self.ids.len()
            invariant
                i <= self.ids@.len(),
                forall|j: int| 0 <= j < i ==> self.ids@[j] != id,
            decreases self.ids@.len() - i,
        {
            if self.ids[i] == id {
                return true;
            }
            i = i + 1;
        }
        false
    }

    /// Inserts `id`; returns whether it was not there yet.
    pub fn insert(&mut self, id: u32) -> (r: bool)
        requires
            old(self).wf(),
        ensures
            final(self).wf(),
            r == !old(self).set().contains(id),
            final(self).set() == old(self).set().insert(id),
            final(self).seq().len() == old(self).seq().len() + (if r { 1int } else { 0int }),
    {
        let mut i: usize = 0;
        while i < self.ids.len() && self.ids[i] < id
            invariant
                i <= self.ids@.len(),
                strictly_increasing(self.ids@),
                forall|j: int| 0 <= j < i ==> self.ids@[j] < id,
            decreases self.ids@.len() - i,
        {
            i = i + 1;
        }
        if i < self.ids.len() && self.ids[i] == id {
            return false;
        }
        let ghost before = self.ids@;
        self.ids.insert(i, id);
        proof {
            let after = self.ids@;
            assert forall|a: int, b: int| 0 <= a < b < after.len() implies after[a] < after[b] by {
                if b < i {
                } else if b == i {
                } else if a < i {
                    assert(after[b] == before[b - 1]);
                    if i < before.len() {
                        assert(before[i as int] > id || before[i as int] == id || before[i as int]
                            < id);
                    }
                } else if a == i {
                    assert(after[b] == before[b - 1]);
                } else {
                    assert(after[a] == before[a - 1]);
                    assert(after[b] == before[b - 1]);
                }
            }
            assert forall|x: u32| after.contains(x) <==> before.contains(x) || x == id by {
                if after.contains(x) {
                    let k = choose|k: int| 0 <= k < after.len() && after[k] == x;
                    if k < i {
                        assert(before[k] == x);
                    } else if k > i {
                        assert(before[k - 1] == x);
                    }
                }
                if before.contains(x) {
                    let k = choose|k: int| 0 <= k < before.len() && before[k] == x;
                    if k < i {
                        assert(after[k] == x);
                    } else {
                        assert(after[k + 1] == x);
                    }
                }
                if x == id {
                    assert(after[i as int] == x);
                }
            }
            assert(self.set() =~= old(self).set().insert(id));
            assert(!before.contains(id)) by {
                if before.contains(id) {
                    let k = choose|k: int| 0 <= k < before.len() && before[k] == id;
                    if k < i {
                    } else {
                        assert(before[k] >= before[i as int]);
                    }
                }
            }
        }
        true
    }

    /// Removes `id` if it is there.
    pub fn remove(&mut self, id: u32)
        requires
            old(self).wf(),
        ensures
            final(self).wf(),
            final(self).set() == old(self).set().remove(id),
    {
        let mut i: usize = 0;
        while i < self.ids.len()
            invariant
                i <= self.ids@.len(),
                self.ids@ == old(self).ids@,
                strictly_increasing(self.ids@),
                forall|j: int| 0 <= j < i ==> self.ids@[j] != id,
            decreases self.ids@.len() - i,
        {
            if self.ids[i] == id {
                let ghost before = self.ids@;
                self.ids.remove(i);
                proof {
                    let after = self.ids@;
                    assert forall|a: int, b: int| 0 <= a < b < after.len() implies after[a]
                        < after[b] by {
                        let a0 = if a < i { a } else { a + 1 };
                        let b0 = if b < i { b } else { b + 1 };
                        assert(after[a] == before[a0]);
                        assert(after[b] == before[b0]);
                    }
                    assert forall|x: u32| after.contains(x) <==> before.contains(x) && x != id by {
                        if after.contains(x) {
                            let k = choose|k: int| 0 <= k < after.len() && after[k] == x;
                            let k0 = if k < i { k } else { k + 1 };
                            assert(before[k0] == x);
                            assert(x != id) by {
                                if k0 < i { assert(before[k0] < before[i as int]); }
                                else { assert(before[k0] > before[i as int]); }
                            }
                        }
                        if before.contains(x) && x != id {
                            let k = choose|k: int| 0 <= k < before.len() && before[k] == x;
                            if k < i {
                                assert(after[k] == x);
                            } else {
                                assert(k != i);
                                assert(after[k - 1] == x);
                            }
                        }
                    }
                    assert(self.set() =~= old(self).set().remove(id));
                }
                return;
            }
            i = i + 1;
        }
        assert(!self.ids@.contains(id));
        assert(self.set() =~= old(self).set().remove(id));
    }

    /// The identifier at position `i` in increasing order.
    pub fn get(&self, i: usize) -> (r: u32)
        requires
            i < self.seq().len(),
        ensures
            r == self.seq()[i as int],
    {
        self.ids[i]
    }

    /// How many identifiers are listed.
    pub fn count(&self) -> (r: usize)
        ensures
            r == self.seq().len(),
    {
        self.ids.len()
    }

    /// A copy of the identifiers, in increasing order.
    pub fn to_vec(&self) -> (r: Vec<u32>)
        ensures
            r@ == self.seq(),
    {
        self.ids.clone()
    }
}

} // verus!
