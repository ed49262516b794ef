use scroll_collect::engine::{AccessorError, Engine, Outcome, Policy, Step};
use scroll_collect::extract::Fragment;

fn link(handle: &str) -> Vec<u8> {
    format!("https://www.instagram.com/{}/", handle).into_bytes()
}

fn frag(handles: &[&str]) -> Fragment {
    Fragment { links: handles.iter().map(|h| link(h)).collect() }
}

#[test]
fn fresh_engine_is_live_and_empty() {
    let engine = Engine::new(Policy { target: 10, threshold: 3 });
    assert!(!engine.is_finished());
    assert_eq!(engine.size(), 0);
    assert!(engine.snapshot().is_empty());
}

#[test]
fn target_check_fires_before_stagnation() {
    // target 5, rounds yield new-identifier counts [2, 2, 1, 0, 0, 0] with
    // stagnation threshold 3: the run ends ReachedTarget after round 3 —
    // the zero-delta tail is never reached.
    let mut engine = Engine::new(Policy { target: 5, threshold: 3 });
    let rounds = [
        frag(&["a", "b"]),
        frag(&["c", "d"]),
        frag(&["e"]),
        frag(&[]),
        frag(&[]),
        frag(&[]),
    ];
    let mut steps = Vec::new();
    for fragment in &rounds {
        if engine.is_finished() {
            break;
        }
        steps.push(engine.process_round(fragment, false));
    }
    assert_eq!(
        steps,
        vec![
            Step::Continue,
            Step::Continue,
            Step::Stop(Outcome::ReachedTarget),
        ]
    );
    assert_eq!(engine.size(), 5);
    assert_eq!(engine.rounds, 3);
    assert_eq!(engine.outcome, Some(Outcome::ReachedTarget));
}

#[test]
fn reaching_target_can_overshoot_only_within_last_round() {
    let mut engine = Engine::new(Policy { target: 3, threshold: 3 });
    let step = engine.process_round(&frag(&["a", "b", "c", "d"]), false);
    assert_eq!(step, Step::Stop(Outcome::ReachedTarget));
    assert_eq!(engine.size(), 4);
}

#[test]
fn stagnation_stops_after_exactly_threshold_empty_rounds() {
    let mut engine = Engine::new(Policy { target: 10, threshold: 3 });
    assert_eq!(engine.process_round(&frag(&["a", "b"]), false), Step::Continue);
    let size_before = engine.size();
    // every later round re-yields only already-seen identifiers
    assert_eq!(engine.process_round(&frag(&["a", "b"]), false), Step::Continue);
    assert_eq!(engine.process_round(&frag(&["b"]), false), Step::Continue);
    assert_eq!(
        engine.process_round(&frag(&["a"]), false),
        Step::Stop(Outcome::Stagnated)
    );
    assert_eq!(engine.size(), size_before);
    assert_eq!(engine.rounds, 4);
    assert_eq!(engine.outcome, Some(Outcome::Stagnated));
}

#[test]
fn progress_resets_the_stagnation_streak() {
    let mut engine = Engine::new(Policy { target: 10, threshold: 2 });
    assert_eq!(engine.process_round(&frag(&["a"]), false), Step::Continue);
    assert_eq!(engine.process_round(&frag(&["a"]), false), Step::Continue); // streak 1
    assert_eq!(engine.process_round(&frag(&["b"]), false), Step::Continue); // reset
    assert_eq!(engine.process_round(&frag(&["b"]), false), Step::Continue); // streak 1
    assert_eq!(
        engine.process_round(&frag(&["a", "b"]), false),
        Step::Stop(Outcome::Stagnated)
    );
    assert_eq!(engine.size(), 2);
}

#[test]
fn cancellation_between_rounds_preserves_the_snapshot() {
    // the signal is raised between round 1 and round 2: the run ends
    // Cancelled with the accumulator exactly as round 1 left it, and round
    // 2 never executes.
    let mut engine = Engine::new(Policy { target: 10, threshold: 3 });
    assert_eq!(engine.process_round(&frag(&["a", "b"]), false), Step::Continue);
    let rounds_after_k = engine.rounds;
    let oc = engine.cancel();
    assert_eq!(oc, Outcome::Cancelled);
    assert_eq!(engine.outcome, Some(Outcome::Cancelled));
    assert_eq!(engine.rounds, rounds_after_k);
    assert_eq!(
        engine.snapshot(),
        &vec![b"a".to_vec(), b"b".to_vec()]
    );
}

#[test]
fn cancellation_inside_a_round_still_merges_that_round() {
    let mut engine = Engine::new(Policy { target: 10, threshold: 3 });
    let step = engine.process_round(&frag(&["a"]), true);
    assert_eq!(step, Step::Stop(Outcome::Cancelled));
    assert_eq!(engine.size(), 1);
}

#[test]
fn target_wins_over_cancellation_in_the_same_round() {
    let mut engine = Engine::new(Policy { target: 1, threshold: 3 });
    let step = engine.process_round(&frag(&["a"]), true);
    assert_eq!(step, Step::Stop(Outcome::ReachedTarget));
}

#[test]
fn surface_failure_after_a_merge_keeps_that_merge() {
    // triggerNextLoad fails with SurfaceUnavailable after round 1's
    // extraction: the run ends Failed, the snapshot still holds round 1's
    // identifiers, and no further round runs.
    let mut engine = Engine::new(Policy { target: 10, threshold: 3 });
    assert_eq!(engine.process_round(&frag(&["a", "b"]), false), Step::Continue);
    let oc = engine.fail(AccessorError::SurfaceUnavailable);
    assert_eq!(oc, Outcome::Failed(AccessorError::SurfaceUnavailable));
    assert_eq!(engine.outcome, Some(Outcome::Failed(AccessorError::SurfaceUnavailable)));
    assert_eq!(engine.rounds, 1);
    assert_eq!(
        engine.snapshot(),
        &vec![b"a".to_vec(), b"b".to_vec()]
    );
}

#[test]
fn rendering_failure_is_reported_as_failed() {
    let mut engine = Engine::new(Policy { target: 10, threshold: 3 });
    let oc = engine.fail(AccessorError::RenderingFailure);
    assert_eq!(oc, Outcome::Failed(AccessorError::RenderingFailure));
}

#[test]
fn listing_smaller_than_target_stagnates_instead_of_looping() {
    // the whole listing has 2 entries but the target is 1000: after the
    // threshold of no-progress rounds the run ends Stagnated.
    let mut engine = Engine::new(Policy { target: 1000, threshold: 3 });
    let whole_listing = frag(&["a", "b"]);
    let mut last = Step::Continue;
    let mut executed = 0;
    while !engine.is_finished() && executed < 100 {
        last = engine.process_round(&whole_listing, false);
        executed += 1;
    }
    assert_eq!(last, Step::Stop(Outcome::Stagnated));
    assert_eq!(executed, 4); // one productive round, then three empty ones
    assert_eq!(engine.size(), 2);
}
