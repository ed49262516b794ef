//! The deduplicating accumulator: the central state of one collection run.
//!
//! It holds the set of identifiers collected so far, each exactly once.
//! Merging a batch adds the identifiers not already present and reports how
//! many were new; that count is the sole stagnation signal the loop
//! controller reads. Its size never decreases, and after any sequence of
//! merges it equals the number of distinct identifiers ever merged.

use vstd::prelude::*;
use crate::extract::{contains_id, views_of};
use crate::ident::is_identifier;

verus! {

broadcast use
    vstd::seq_lib::group_seq_lib_default,
    vstd::seq_lib::group_seq_properties,
    vstd::set::group_set_axioms;

/// A growing, duplicate-free collection of valid identifiers.
pub struct Accumulator {
    pub ids: Vec<Vec<u8>>,
}

impl Accumulator {
    /// The identifiers in the order they were first seen.
    pub open spec fn id_seq(self) -> Seq<Seq<u8>> {
        views_of(self.ids@)
    }

    /// The set of identifiers collected so far.
    pub open spec fn id_set(self) -> Set<Seq<u8>> {
        self.id_seq().to_set()
    }

    /// How many identifiers are held; under the invariant this equals the
    /// cardinality of `id_set`.
    pub open spec fn count(self) -> nat {
        self.id_seq().len()
    }

    /// Each identifier is valid and held exactly once.
    pub open spec fn inv(self) -> bool {
        &&& self.id_seq().no_duplicates()
        &&& forall|k: int| 0 <= k < self.id_seq().len() ==> is_identifier(
            #[trigger] self.id_seq()[k],
        )
    }

    /// Under the invariant, the length of the backing list is the
    /// cardinality of the identifier set.
    pub proof fn lemma_count_is_set_len(self)
        requires
            self.inv(),
        ensures
            self.count() == self.id_set().len(),
            self.id_set().finite(),
    {
        self.id_seq().unique_seq_to_set();
    }

    /// A fresh, empty accumulator.
    pub fn new() -> (acc: Accumulator)
        ensures
            acc.inv(),
            acc.id_set() == Set::<Seq<u8>>::empty(),
            acc.count() == 0,
    {
        let acc = Accumulator { ids: Vec::new() };
        proof {
            assert(acc.id_set() =~= Set::<Seq<u8>>::empty());
        }
        acc
    }

    /// Merge one batch of identifiers: those not already present are added,
    /// and the return value says how many were new this round.
    ///
    /// The resulting set is exactly the union of the old set with the batch,
    /// so the size never decreases, and a batch of already-seen identifiers
    /// comes back with `delta == 0`.
    pub fn merge(&mut self, new_ids: &Vec<Vec<u8>>) -> (delta: usize)
        requires
            old(self).inv(),
            forall|k: int| 0 <= k < new_ids@.len() ==> is_identifier(
                #[trigger] views_of(new_ids@)[k],
            ),
        ensures
            final(self).inv(),
            final(self).id_set() == old(self).id_set().union(views_of(new_ids@).to_set()),
            final(self).count() == old(self).count() + delta,
            old(self).id_set().subset_of(final(self).id_set()),
            delta as int == final(self).id_set().len() - old(self).id_set().len(),
    {
        let ghost start = self.id_seq();
        let mut delta: usize = 0;
        let mut i: usize = 0;
        while i < new_ids.len()
            invariant
                i <= new_ids.len(),
                delta <= i,
                self.inv(),
                forall|k: int| 0 <= k < new_ids@.len() ==> is_identifier(
                    #[trigger] views_of(new_ids@)[k],
                ),
                self.count() == start.len() + delta,
                self.id_set() == start.to_set().union(views_of(new_ids@).take(i as int).to_set()),
            decreases new_ids.len() - i,
        {
            let ghost pre = self.id_seq();
            let x = copy_id(&new_ids[i]);
            proof {
                assert(x@ == views_of(new_ids@)[i as int]);
                assert(views_of(new_ids@).take(i + 1) =~= views_of(new_ids@).take(i as int).push(
                    x@,
                ));
                views_of(new_ids@).take(i as int).lemma_push_to_set_commute(x@);
            }
            if !contains_id(&self.ids, &x) {
                self.ids.push(x);
                delta += 1;
                proof {
                    assert(forall|k: int| 0 <= k < pre.len() ==> pre[k] != views_of(
                        new_ids@,
                    )[i as int]);
                    assert(self.id_seq() =~= pre.push(views_of(new_ids@)[i as int]));
                    pre.lemma_push_to_set_commute(views_of(new_ids@)[i as int]);
                    assert(self.id_set() =~= start.to_set().union(
                        views_of(new_ids@).take(i + 1).to_set(),
                    ));
                }
            } else {
                proof {
                    assert(self.id_set() =~= start.to_set().union(
                        views_of(new_ids@).take(i + 1).to_set(),
                    ));
                }
            }
            i += 1;
        }
        proof {
            assert(views_of(new_ids@).take(i as int) =~= views_of(new_ids@));
            old(self).lemma_count_is_set_len();
            self.lemma_count_is_set_len();
        }
        delta
    }

    /// How many identifiers have been collected.
    pub fn size(&self) -> (n: usize)
        requires
            self.inv(),
        ensures
            n == self.count(),
            n == self.id_set().len(),
    {
        proof {
            self.lemma_count_is_set_len();
        }
        self.ids.len()
    }

    /// A read-only view of the collected identifiers, for persistence.
    pub fn snapshot(&self) -> (s: &Vec<Vec<u8>>)
        ensures
            views_of(s@) == self.id_seq(),
            views_of(s@).to_set() == self.id_set(),
    {
        &self.ids
    }
}

/// Copy the bytes of one identifier.
fn copy_id(x: &Vec<u8>) -> (y: Vec<u8>)
    ensures
        y@ == x@,
{
    let mut y: Vec<u8> = Vec::new();
    let mut i: usize = 0;
    while i < x.len()
        invariant
            i <= x.len(),
            y@ == x@.take(i as int),
        decreases x.len() - i,
    {
        y.push(x[i]);
        proof {
            assert(x@.take(i + 1) =~= x@.take(i as int).push(x@[i as int]));
        }
        i += 1;
    }
    proof {
        assert(x@.take(i as int) =~= x@);
    }
    y
}

} // verus!
