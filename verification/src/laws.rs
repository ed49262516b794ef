//! The engine's laws, proved over the ghost run model.
//!
//! [`run_steps`] folds [`round_step`] over a whole sequence of round
//! inputs; since every executed round of [`crate::engine::Engine`] equals
//! one `round_step` of its model, what is proved here holds of every run of
//! the executable engine.

use vstd::prelude::*;
use vstd::set_lib::lemma_len_subset;
use crate::engine::{round_step, Outcome, Policy, RunModel};

verus! {

broadcast use
    vstd::set::group_set_axioms;

/// What one round feeds the model: the identifier set extracted from the
/// fragment, and the cancellation signal as read that round.
pub ghost struct RoundInput {
    pub ids: Set<Seq<u8>>,
    pub cancelled: bool,
}

impl RoundInput {
    /// A fragment only ever contributes finitely many identifiers.
    pub open spec fn wf(self) -> bool {
        self.ids.finite()
    }
}

/// The model after feeding a whole sequence of rounds to the engine.
pub open spec fn run_steps(p: Policy, st: RunModel, inputs: Seq<RoundInput>) -> RunModel
    decreases inputs.len(),
{
    if inputs.len() == 0 {
        st
    } else {
        run_steps(
            p,
            round_step(p, st, inputs.first().ids, inputs.first().cancelled),
            inputs.drop_first(),
        )
    }
}

/// A model that carries an outcome is terminal: further rounds change nothing.
pub proof fn lemma_done_absorbs(p: Policy, st: RunModel, inputs: Seq<RoundInput>)
    requires
        st.outcome is Some,
    ensures
        run_steps(p, st, inputs) == st,
    decreases inputs.len(),
{
    if inputs.len() > 0 {
        lemma_done_absorbs(p, st, inputs.drop_first());
    }
}

/// Running a prefix of length `i + 1` is one round followed by a prefix of
/// length `i` of the remaining rounds.
proof fn lemma_run_shift(p: Policy, st: RunModel, inputs: Seq<RoundInput>, i: int)
    requires
        0 <= i < inputs.len(),
    ensures
        run_steps(p, st, inputs.take(i + 1)) == run_steps(
            p,
            round_step(p, st, inputs.first().ids, inputs.first().cancelled),
            inputs.drop_first().take(i),
        ),
{
    let pre = inputs.take(i + 1);
    assert(pre.len() == i + 1);
    assert(pre.first() == inputs.first());
    assert(pre.drop_first() =~= inputs.drop_first().take(i));
}

/// The distinct identifiers over a sequence of merge batches.
pub open spec fn union_all(batches: Seq<Set<Seq<u8>>>) -> Set<Seq<u8>>
    decreases batches.len(),
{
    if batches.len() == 0 {
        Set::empty()
    } else {
        batches.first().union(union_all(batches.drop_first()))
    }
}

/// The accumulator's set after merging the batches in order, starting from
/// `start` (each merge is a set union, as `Accumulator::merge` ensures).
pub open spec fn merge_fold(start: Set<Seq<u8>>, batches: Seq<Set<Seq<u8>>>) -> Set<Seq<u8>>
    decreases batches.len(),
{
    if batches.len() == 0 {
        start
    } else {
        merge_fold(start.union(batches.first()), batches.drop_first())
    }
}

/// Law: after any sequence of merges, the accumulator holds exactly the
/// distinct identifiers ever merged — its size is their count.
pub proof fn lemma_merges_collect_distinct(start: Set<Seq<u8>>, batches: Seq<Set<Seq<u8>>>)
    ensures
        merge_fold(start, batches) == start.union(union_all(batches)),
    decreases batches.len(),
{
    if batches.len() == 0 {
        assert(start.union(Set::<Seq<u8>>::empty()) =~= start);
    } else {
        lemma_merges_collect_distinct(start.union(batches.first()), batches.drop_first());
        assert(start.union(batches.first()).union(union_all(batches.drop_first())) =~= start.union(
            union_all(batches),
        ));
    }
}

/// Law: a merge never shrinks the accumulator — its size is non-decreasing.
pub proof fn lemma_merge_monotone(before: Set<Seq<u8>>, batch: Set<Seq<u8>>)
    requires
        before.finite(),
        batch.finite(),
    ensures
        before.subset_of(before.union(batch)),
        before.union(batch).len() >= before.len(),
        before.union(batch).finite(),
{
    lemma_len_subset(before, before.union(batch));
}

/// Law: merging a batch a second time adds nothing — the second merge of
/// the same identifiers reports a size delta of zero.
pub proof fn lemma_merge_twice(before: Set<Seq<u8>>, batch: Set<Seq<u8>>)
    ensures
        before.union(batch).union(batch) == before.union(batch),
{
    assert(before.union(batch).union(batch) =~= before.union(batch));
}

/// Law: while a run is live, rounds that each contribute at least one new
/// identifier drive it to `ReachedTarget` — given enough rounds, the run
/// ends successfully with at least the target size collected.
pub proof fn lemma_reaches_target(p: Policy, st: RunModel, inputs: Seq<RoundInput>)
    requires
        p.wf(),
        st.ids.finite(),
        st.outcome is None,
        st.ids.len() < p.target,
        inputs.len() >= p.target - st.ids.len(),
        forall|i: int| 0 <= i < inputs.len() ==> (#[trigger] inputs[i]).wf(),
        forall|i: int| 0 <= i < inputs.len() ==> !(#[trigger] inputs[i]).cancelled,
        forall|i: int| 0 <= i < inputs.len() ==> {
            let cur = run_steps(p, st, inputs.take(i));
            cur.outcome is None ==> cur.ids.union((#[trigger] inputs[i]).ids).len() > cur.ids.len()
        },
    ensures
        run_steps(p, st, inputs).outcome == Option::Some(Outcome::ReachedTarget),
        run_steps(p, st, inputs).ids.len() >= p.target,
    decreases inputs.len(),
{
    assert(inputs.take(0).len() == 0);
    assert(run_steps(p, st, inputs.take(0)) == st);
    assert(inputs[0] == inputs.first());
    let st1 = round_step(p, st, inputs.first().ids, inputs.first().cancelled);
    let merged = st.ids.union(inputs.first().ids);
    assert(merged.len() > st.ids.len());
    if merged.len() >= p.target {
        lemma_done_absorbs(p, st1, inputs.drop_first());
    } else {
        let rest = inputs.drop_first();
        assert forall|j: int| 0 <= j < rest.len() implies {
            let cur = run_steps(p, st1, rest.take(j));
            cur.outcome is None ==> cur.ids.union((#[trigger] rest[j]).ids).len() > cur.ids.len()
        } by {
            lemma_run_shift(p, st, inputs, j);
            assert(rest[j] == inputs[j + 1]);
        }
        lemma_reaches_target(p, st1, rest);
    }
}

/// Law: when every round contributes exactly one new identifier, a live run
/// ends `ReachedTarget` holding exactly the target number of identifiers.
pub proof fn lemma_reaches_target_exactly(p: Policy, st: RunModel, inputs: Seq<RoundInput>)
    requires
        p.wf(),
        st.ids.finite(),
        st.outcome is None,
        st.ids.len() < p.target,
        inputs.len() >= p.target - st.ids.len(),
        forall|i: int| 0 <= i < inputs.len() ==> (#[trigger] inputs[i]).wf(),
        forall|i: int| 0 <= i < inputs.len() ==> !(#[trigger] inputs[i]).cancelled,
        forall|i: int| 0 <= i < inputs.len() ==> {
            let cur = run_steps(p, st, inputs.take(i));
            cur.outcome is None ==> cur.ids.union((#[trigger] inputs[i]).ids).len() == cur.ids.len()
                + 1
        },
    ensures
        run_steps(p, st, inputs).outcome == Option::Some(Outcome::ReachedTarget),
        run_steps(p, st, inputs).ids.len() == p.target,
    decreases inputs.len(),
{
    assert(inputs.take(0).len() == 0);
    assert(run_steps(p, st, inputs.take(0)) == st);
    assert(inputs[0] == inputs.first());
    let st1 = round_step(p, st, inputs.first().ids, inputs.first().cancelled);
    let merged = st.ids.union(inputs.first().ids);
    assert(merged.len() == st.ids.len() + 1);
    if merged.len() >= p.target {
        lemma_done_absorbs(p, st1, inputs.drop_first());
    } else {
        let rest = inputs.drop_first();
        assert forall|j: int| 0 <= j < rest.len() implies {
            let cur = run_steps(p, st1, rest.take(j));
            cur.outcome is None ==> cur.ids.union((#[trigger] rest[j]).ids).len() == cur.ids.len()
                + 1
        } by {
            lemma_run_shift(p, st, inputs, j);
            assert(rest[j] == inputs[j + 1]);
        }
        lemma_reaches_target_exactly(p, st1, rest);
    }
}

/// Law: once extraction yields only already-seen identifiers, a live run
/// ends `Stagnated` after exactly the remaining `threshold - stagnation`
/// zero-delta rounds (every shorter prefix is still live), with the
/// collected set unchanged from when stagnation began.
pub proof fn lemma_stagnates(p: Policy, st: RunModel, inputs: Seq<RoundInput>)
    requires
        p.wf(),
        st.ids.finite(),
        st.outcome is None,
        st.stagnation < p.threshold,
        st.ids.len() < p.target,
        inputs.len() == p.threshold - st.stagnation,
        forall|i: int| 0 <= i < inputs.len() ==> (#[trigger] inputs[i]).wf(),
        forall|i: int| 0 <= i < inputs.len() ==> !(#[trigger] inputs[i]).cancelled,
        forall|i: int| 0 <= i < inputs.len() ==> (#[trigger] inputs[i]).ids.subset_of(st.ids),
    ensures
        run_steps(p, st, inputs).outcome == Option::Some(Outcome::Stagnated),
        run_steps(p, st, inputs).ids == st.ids,
        run_steps(p, st, inputs).rounds == st.rounds + inputs.len(),
        forall|j: int| 0 <= j < inputs.len() ==> (#[trigger] run_steps(
            p,
            st,
            inputs.take(j),
        )).outcome is None,
    decreases inputs.len(),
{
    assert(inputs[0] == inputs.first());
    let merged = st.ids.union(inputs.first().ids);
    assert(merged =~= st.ids);
    let st1 = round_step(p, st, inputs.first().ids, inputs.first().cancelled);
    assert(st1.ids == st.ids);
    let rest = inputs.drop_first();
    if inputs.len() == 1 {
        assert(st.stagnation + 1 >= p.threshold);
        assert(st1.outcome == Option::Some(Outcome::Stagnated));
        assert(run_steps(p, st1, rest) == st1);
        assert forall|j: int| 0 <= j < inputs.len() implies (#[trigger] run_steps(
            p,
            st,
            inputs.take(j),
        )).outcome is None by {
            assert(inputs.take(0).len() == 0);
            assert(run_steps(p, st, inputs.take(0)) == st);
        }
    } else {
        assert(st.stagnation + 1 < p.threshold);
        assert(st1.outcome is None);
        assert forall|i: int| 0 <= i < rest.len() implies (#[trigger] rest[i]).wf()
            && !rest[i].cancelled && rest[i].ids.subset_of(st1.ids) by {
            assert(rest[i] == inputs[i + 1]);
        }
        lemma_stagnates(p, st1, rest);
        assert forall|j: int| 0 <= j < inputs.len() implies (#[trigger] run_steps(
            p,
            st,
            inputs.take(j),
        )).outcome is None by {
            if j == 0 {
                assert(inputs.take(0).len() == 0);
                assert(run_steps(p, st, inputs.take(0)) == st);
            } else {
                lemma_run_shift(p, st, inputs, j - 1);
                assert(run_steps(p, st1, rest.take(j - 1)).outcome is None);
            }
        }
    }
}

} // verus!
