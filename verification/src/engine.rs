//! The collection loop controller.
//!
//! One run of the engine drives repeated extract / trigger-load / wait
//! cycles. Each round the caller hands the engine the fragment it extracted
//! from the rendered surface and the state of the external cancellation
//! signal; the engine merges the fragment's identifiers into its
//! accumulator and applies the termination policy, in this order: target
//! reached, cancelled, stagnated. Between rounds the caller may also report
//! a cancellation (before extracting again) or a surface failure; both end
//! the run at once while preserving everything accumulated so far.
//!
//! The whole behaviour is pinned to a ghost model: every round of the
//! executable engine equals one [`round_step`] of the model.

use vstd::prelude::*;
use crate::accum::Accumulator;
use crate::extract::{extract, extracted_ids, views_of, Fragment};

verus! {

/// Why a run failed: the rendering session was torn down, or the surface
/// reported an unrecoverable rendering error.
#[derive(Clone, Copy, Debug, PartialEq, Eq, Structural)]
pub enum AccessorError {
    SurfaceUnavailable,
    RenderingFailure,
}

/// The one terminal outcome of a run. Reaching the target, stagnating and
/// cancellation are normal completions carrying a result snapshot; only
/// `Failed` reports an error, and even then the snapshot is preserved.
#[derive(Clone, Copy, Debug, PartialEq, Eq, Structural)]
pub enum Outcome {
    ReachedTarget,
    Stagnated,
    Cancelled,
    Failed(AccessorError),
}

/// What the caller should do after a round: keep going (trigger the next
/// content load, wait, extract again) or stop with the given outcome.
#[derive(Clone, Copy, Debug, PartialEq, Eq, Structural)]
pub enum Step {
    Continue,
    Stop(Outcome),
}

/// The step a caller sees for a given engine outcome.
pub open spec fn step_of(oc: Option<Outcome>) -> Step {
    match oc {
        Option::None => Step::Continue,
        Option::Some(o) => Step::Stop(o),
    }
}

/// The termination policy of one run: stop successfully at `target`
/// collected identifiers, stop as stagnated after `threshold` consecutive
/// rounds that added nothing. Both are caller-supplied and at least one.
#[derive(Clone, Copy, Debug, PartialEq, Eq, Structural)]
pub struct Policy {
    pub target: usize,
    pub threshold: usize,
}

impl Policy {
    /// A usable policy: a target of at least one identifier and a
    /// stagnation threshold of at least one round.
    pub open spec fn wf(self) -> bool {
        self.target >= 1 && self.threshold >= 1
    }
}

/// The ghost model of one run: the identifiers collected so far, the number
/// of rounds executed, the current run of consecutive zero-delta rounds,
/// and the terminal outcome once there is one.
pub ghost struct RunModel {
    pub ids: Set<Seq<u8>>,
    pub rounds: nat,
    pub stagnation: nat,
    pub outcome: Option<Outcome>,
}

impl RunModel {
    /// The model at the start of a run: nothing collected, no rounds run.
    pub open spec fn initial() -> RunModel {
        RunModel { ids: Set::empty(), rounds: 0, stagnation: 0, outcome: Option::None }
    }
}

/// One round of the termination policy, on the model: merge the round's
/// identifiers, then check — in this order — target reached, cancellation,
/// stagnation. A model that already carries an outcome is left unchanged.
pub open spec fn round_step(p: Policy, st: RunModel, new_ids: Set<Seq<u8>>, cancelled: bool) -> RunModel {
    if st.outcome is Some {
        st
    } else {
        let merged = st.ids.union(new_ids);
        let delta = merged.len() - st.ids.len();
        let next_rounds = (st.rounds + 1) as nat;
        if merged.len() >= p.target {
            RunModel {
                ids: merged,
                rounds: next_rounds,
                stagnation: st.stagnation,
                outcome: Option::Some(Outcome::ReachedTarget),
            }
        } else if cancelled {
            RunModel {
                ids: merged,
                rounds: next_rounds,
                stagnation: st.stagnation,
                outcome: Option::Some(Outcome::Cancelled),
            }
        } else if delta == 0 {
            RunModel {
                ids: merged,
                rounds: next_rounds,
                stagnation: (st.stagnation + 1) as nat,
                outcome: if st.stagnation + 1 >= p.threshold {
                    Option::Some(Outcome::Stagnated)
                } else {
                    Option::None
                },
            }
        } else {
            RunModel { ids: merged, rounds: next_rounds, stagnation: 0, outcome: Option::None }
        }
    }
}

/// The collection loop controller of one run. It owns the accumulator; the
/// caller owns the rendering surface and performs the extract, load and
/// wait actions the engine asks for.
pub struct Engine {
    pub policy: Policy,
    pub accum: Accumulator,
    pub rounds: usize,
    pub stagnation: usize,
    pub outcome: Option<Outcome>,
}

impl Engine {
    /// The ghost model this engine currently realizes.
    pub open spec fn model(self) -> RunModel {
        RunModel {
            ids: self.accum.id_set(),
            rounds: self.rounds as nat,
            stagnation: self.stagnation as nat,
            outcome: self.outcome,
        }
    }

    /// The engine's invariant: a usable policy, a well-formed accumulator,
    /// and — while the run is live — a stagnation streak still below the
    /// threshold and a size still below the target.
    pub open spec fn inv(self) -> bool {
        &&& self.policy.wf()
        &&& self.accum.inv()
        &&& (self.outcome is None ==> self.stagnation < self.policy.threshold)
        &&& (self.outcome is None ==> self.accum.count() < self.policy.target)
    }

    /// A fresh engine for one run under the given policy.
    pub fn new(policy: Policy) -> (e: Engine)
        requires
            policy.wf(),
        ensures
            e.inv(),
            e.policy == policy,
            e.model() == RunModel::initial(),
    {
        let e = Engine {
            policy,
            accum: Accumulator::new(),
            rounds: 0,
            stagnation: 0,
            outcome: Option::None,
        };
        e
    }

    /// Execute one round on an extracted fragment: merge its identifiers,
    /// then apply the termination policy (target first, then cancellation,
    /// then stagnation). `cancelled` is the external cancellation signal as
    /// read this round.
    ///
    /// The new engine state is exactly one [`round_step`] of the model on
    /// the fragment's identifier set, and the returned step tells the
    /// caller whether to trigger the next load or stop.
    pub fn process_round(&mut self, fragment: &Fragment, cancelled: bool) -> (step: Step)
        requires
            old(self).inv(),
            old(self).outcome is None,
            old(self).rounds < usize::MAX,
        ensures
            final(self).inv(),
            final(self).policy == old(self).policy,
            final(self).model() == round_step(
                old(self).policy,
                old(self).model(),
                extracted_ids(fragment@),
                cancelled,
            ),
            step == step_of(final(self).outcome),
    {
        proof {
            old(self).accum.lemma_count_is_set_len();
        }
        let new_ids = extract(fragment);
        let delta = self.accum.merge(&new_ids);
        self.rounds = self.rounds + 1;
        let size = self.accum.size();
        if size >= self.policy.target {
            self.outcome = Option::Some(Outcome::ReachedTarget);
            Step::Stop(Outcome::ReachedTarget)
        } else if cancelled {
            self.outcome = Option::Some(Outcome::Cancelled);
            Step::Stop(Outcome::Cancelled)
        } else if delta == 0 {
            self.stagnation = self.stagnation + 1;
            if self.stagnation >= self.policy.threshold {
                self.outcome = Option::Some(Outcome::Stagnated);
                Step::Stop(Outcome::Stagnated)
            } else {
                Step::Continue
            }
        } else {
            self.stagnation = 0;
            Step::Continue
        }
    }

    /// End the run at a round boundary because the external cancellation
    /// signal was raised: the outcome is `Cancelled`, and the accumulator
    /// and counters are exactly as the last executed round left them — no
    /// further round runs.
    pub fn cancel(&mut self) -> (oc: Outcome)
        requires
            old(self).inv(),
            old(self).outcome is None,
        ensures
            final(self).inv(),
            oc == Outcome::Cancelled,
            final(self).outcome == Option::Some(Outcome::Cancelled),
            final(self).accum == old(self).accum,
            final(self).rounds == old(self).rounds,
            final(self).stagnation == old(self).stagnation,
            final(self).policy == old(self).policy,
    {
        self.outcome = Option::Some(Outcome::Cancelled);
        Outcome::Cancelled
    }

    /// End the run because an accessor call failed: the outcome is
    /// `Failed(reason)`, and the accumulator keeps everything merged so far
    /// (the snapshot stays eligible for best-effort persistence) — no
    /// further round runs and nothing is retried.
    pub fn fail(&mut self, reason: AccessorError) -> (oc: Outcome)
        requires
            old(self).inv(),
            old(self).outcome is None,
        ensures
            final(self).inv(),
            oc == Outcome::Failed(reason),
            final(self).outcome == Option::Some(Outcome::Failed(reason)),
            final(self).accum == old(self).accum,
            final(self).rounds == old(self).rounds,
            final(self).stagnation == old(self).stagnation,
            final(self).policy == old(self).policy,
    {
        self.outcome = Option::Some(Outcome::Failed(reason));
        Outcome::Failed(reason)
    }

    /// Whether the run has reached a terminal outcome.
    pub fn is_finished(&self) -> (r: bool)
        ensures
            r <==> self.outcome is Some,
    {
        self.outcome.is_some()
    }

    /// How many identifiers this run has collected so far.
    pub fn size(&self) -> (n: usize)
        requires
            self.inv(),
        ensures
            n == self.model().ids.len(),
    {
        self.accum.size()
    }

    /// A read-only view of the collected identifiers in first-seen order,
    /// for persistence.
    pub fn snapshot(&self) -> (s: &Vec<Vec<u8>>)
        ensures
            views_of(s@) == self.accum.id_seq(),
            views_of(s@).to_set() == self.model().ids,
    {
        self.accum.snapshot()
    }
}

} // verus!
