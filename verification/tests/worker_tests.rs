use phase_sync::phase::Phase;
use phase_sync::worker::{attempt_transition, TransitionError, WorkerState};

const PHASES: [Phase; 5] =
    [Phase::Init, Phase::Downloading, Phase::Compressing, Phase::Pushing, Phase::Completed];

fn urls(n: usize) -> Vec<String> {
    let mut v = Vec::new();
    for i in 0..n {
        v.push(format!("www.w{}.com", i + 1));
    }
    v
}

/// A worker that has been brought into `phase` with none of that phase's
/// work done.
fn fresh_in(phase: Phase, n: usize) -> WorkerState {
    let mut w = WorkerState::new(urls(n));
    while w.phase() != phase {
        w.complete_all_units();
        let next = w.phase().successor().unwrap();
        w.transition_state(next).unwrap();
    }
    w
}

#[test]
fn new_worker_starts_in_init_with_nothing_done() {
    let w = WorkerState::new(urls(2));
    assert_eq!(w.phase(), Phase::Init);
    assert_eq!(w.required_count(), 2);
    assert_eq!(w.downloaded_count(), 0);
    assert!(!w.is_compress());
    assert!(!w.is_pushed());
    assert_eq!(w.download_urls(), &vec![String::from("www.w1.com"), String::from("www.w2.com")]);
}

#[test]
fn init_moves_to_downloading_without_a_condition() {
    let w = WorkerState::new(urls(2));
    let next = attempt_transition(&w, Phase::Downloading).unwrap();
    assert_eq!(next.phase(), Phase::Downloading);
    assert_eq!(next.download_urls(), w.download_urls());
    assert_eq!(next.downloaded_count(), 0);
    assert!(!next.is_compress());
    assert!(!next.is_pushed());
}

#[test]
fn downloading_needs_every_unit_before_compressing() {
    let mut w = fresh_in(Phase::Downloading, 2);
    assert_eq!(
        attempt_transition(&w, Phase::Compressing).unwrap_err(),
        TransitionError::InvalidTransition { from: Phase::Downloading, to: Phase::Compressing }
    );
    assert!(w.complete_unit());
    assert_eq!(w.downloaded_count(), 1);
    assert!(attempt_transition(&w, Phase::Compressing).is_err());
    assert!(w.complete_unit());
    assert_eq!(w.downloaded_count(), 2);
    let next = attempt_transition(&w, Phase::Compressing).unwrap();
    assert_eq!(next.phase(), Phase::Compressing);
    assert_eq!(next.downloaded_count(), 2);
}

#[test]
fn compressing_needs_the_flag_before_pushing() {
    let mut w = fresh_in(Phase::Compressing, 1);
    assert_eq!(
        attempt_transition(&w, Phase::Pushing).unwrap_err(),
        TransitionError::InvalidTransition { from: Phase::Compressing, to: Phase::Pushing }
    );
    assert!(w.complete_unit());
    assert!(w.is_compress());
    let next = attempt_transition(&w, Phase::Pushing).unwrap();
    assert_eq!(next.phase(), Phase::Pushing);
    assert!(next.is_compress());
    assert!(!next.is_pushed());
}

#[test]
fn pushing_needs_the_flag_before_completed() {
    let mut w = fresh_in(Phase::Pushing, 1);
    assert_eq!(
        attempt_transition(&w, Phase::Completed).unwrap_err(),
        TransitionError::InvalidTransition { from: Phase::Pushing, to: Phase::Completed }
    );
    assert!(w.complete_unit());
    assert!(w.is_pushed());
    let next = attempt_transition(&w, Phase::Completed).unwrap();
    assert_eq!(next.phase(), Phase::Completed);
    assert_eq!(next.downloaded_count(), 1);
    assert!(next.is_compress());
    assert!(next.is_pushed());
}

#[test]
fn only_the_immediate_successor_is_accepted() {
    for from in PHASES {
        let mut w = fresh_in(from, 2);
        w.complete_all_units();
        for to in PHASES {
            let outcome = attempt_transition(&w, to);
            if from.successor() == Some(to) {
                assert_eq!(outcome.unwrap().phase(), to);
            } else {
                assert_eq!(
                    outcome.unwrap_err(),
                    TransitionError::InvalidTransition { from, to }
                );
            }
        }
    }
}

#[test]
fn no_pair_is_accepted_while_the_phase_is_incomplete() {
    for from in [Phase::Downloading, Phase::Compressing, Phase::Pushing] {
        let w = fresh_in(from, 2);
        for to in PHASES {
            assert_eq!(
                attempt_transition(&w, to).unwrap_err(),
                TransitionError::InvalidTransition { from, to }
            );
        }
    }
}

#[test]
fn completed_has_no_way_out() {
    let w = fresh_in(Phase::Completed, 2);
    for to in PHASES {
        assert_eq!(
            attempt_transition(&w, to).unwrap_err(),
            TransitionError::InvalidTransition { from: Phase::Completed, to }
        );
    }
}

#[test]
fn init_has_no_way_in() {
    for from in PHASES {
        let mut w = fresh_in(from, 2);
        w.complete_all_units();
        assert_eq!(
            attempt_transition(&w, Phase::Init).unwrap_err(),
            TransitionError::InvalidTransition { from, to: Phase::Init }
        );
    }
}

#[test]
fn a_refused_move_leaves_the_record_alone() {
    let mut w = fresh_in(Phase::Downloading, 3);
    w.complete_unit();
    assert!(attempt_transition(&w, Phase::Compressing).is_err());
    assert!(w.transition_state(Phase::Pushing).is_err());
    assert_eq!(w.phase(), Phase::Downloading);
    assert_eq!(w.downloaded_count(), 1);
    assert_eq!(w.required_count(), 3);
    assert!(!w.is_compress());
    assert!(!w.is_pushed());
}

#[test]
fn an_accepted_move_does_not_touch_the_old_record() {
    let w = WorkerState::new(urls(2));
    let _next = attempt_transition(&w, Phase::Downloading).unwrap();
    assert_eq!(w.phase(), Phase::Init);
    assert_eq!(w.required_count(), 2);
}

#[test]
fn transition_state_moves_in_place() {
    let mut w = WorkerState::new(urls(0));
    assert_eq!(w.transition_state(Phase::Downloading), Ok(()));
    assert_eq!(w.phase(), Phase::Downloading);
    assert_eq!(
        w.transition_state(Phase::Downloading),
        Err(TransitionError::InvalidTransition { from: Phase::Downloading, to: Phase::Downloading })
    );
    // nothing to download: the phase is complete at once
    assert!(w.phase_complete());
    assert_eq!(w.transition_state(Phase::Compressing), Ok(()));
    assert_eq!(w.phase(), Phase::Compressing);
}

#[test]
fn units_remaining_counts_down() {
    let mut w = fresh_in(Phase::Downloading, 3);
    assert_eq!(w.units_remaining(), 3);
    assert!(!w.phase_complete());
    assert!(w.complete_unit());
    assert_eq!(w.units_remaining(), 2);
    assert!(w.complete_unit());
    assert!(w.complete_unit());
    assert_eq!(w.units_remaining(), 0);
    assert!(w.phase_complete());
    assert!(!w.complete_unit());
    assert_eq!(w.downloaded_count(), 3);
}

#[test]
fn phases_without_work_have_no_units() {
    let mut w = WorkerState::new(urls(2));
    assert_eq!(w.units_remaining(), 0);
    assert!(!w.complete_unit());
    assert_eq!(w.downloaded_count(), 0);
    let mut done = fresh_in(Phase::Completed, 2);
    assert_eq!(done.units_remaining(), 0);
    assert!(!done.complete_unit());
    done.complete_all_units();
    assert_eq!(done.phase(), Phase::Completed);
}

#[test]
fn compressing_and_pushing_have_one_unit_each() {
    let mut w = fresh_in(Phase::Compressing, 2);
    assert_eq!(w.units_remaining(), 1);
    assert!(w.complete_unit());
    assert_eq!(w.units_remaining(), 0);
    assert!(!w.complete_unit());
    let mut p = fresh_in(Phase::Pushing, 2);
    assert_eq!(p.units_remaining(), 1);
    p.complete_all_units();
    assert!(p.is_pushed());
    assert_eq!(p.units_remaining(), 0);
}

#[test]
fn a_completed_worker_has_all_its_work_behind_it() {
    let w = fresh_in(Phase::Completed, 2);
    assert_eq!(w.phase(), Phase::Completed);
    assert_eq!(w.downloaded_count(), 2);
    assert!(w.is_compress());
    assert!(w.is_pushed());
}
