use phase_sync::message::Message;
use phase_sync::phase::Phase;
use phase_sync::rendezvous::{Observation, ReadinessRecord};
use phase_sync::sync::SyncError;

fn announce(p: Phase) -> Message {
    Message::announcing(p)
}

#[test]
fn a_node_must_belong_to_its_cohort() {
    assert_eq!(ReadinessRecord::new(0, 0).unwrap_err(), SyncError::InvalidCohort);
    assert_eq!(ReadinessRecord::new(3, 3).unwrap_err(), SyncError::InvalidCohort);
    assert_eq!(ReadinessRecord::new(3, 7).unwrap_err(), SyncError::InvalidCohort);
    assert!(ReadinessRecord::new(3, 2).is_ok());
    assert!(ReadinessRecord::new(1, 0).is_ok());
}

#[test]
fn a_new_record_stands_before_the_first_boundary() {
    let r = ReadinessRecord::new(3, 1).unwrap();
    assert_eq!(r.cohort_size(), 3);
    assert_eq!(r.node_id(), 1);
    assert_eq!(r.boundary(), Some(Phase::Downloading));
    assert!(!r.has_entered());
    assert_eq!(r.arrival_count(), 0);
    assert!(!r.is_ready());
}

#[test]
fn entering_gives_the_announcement_to_broadcast() {
    let mut r = ReadinessRecord::new(3, 0).unwrap();
    assert_eq!(
        r.enter_barrier(Phase::Downloading),
        Ok(Message::StateChangingTo(String::from("Downloading")))
    );
    assert!(r.has_entered());
}

#[test]
fn only_the_next_boundary_can_be_entered_and_only_once() {
    let mut r = ReadinessRecord::new(3, 0).unwrap();
    assert_eq!(r.enter_barrier(Phase::Compressing), Err(SyncError::WrongBoundary));
    assert_eq!(r.enter_barrier(Phase::Init), Err(SyncError::WrongBoundary));
    assert!(!r.has_entered());
    assert!(r.enter_barrier(Phase::Downloading).is_ok());
    assert_eq!(r.enter_barrier(Phase::Downloading), Err(SyncError::WrongBoundary));
    assert!(r.has_entered());
}

#[test]
fn a_node_passes_only_after_all_other_peers_have_announced() {
    let mut r = ReadinessRecord::new(3, 0).unwrap();
    r.enter_barrier(Phase::Downloading).unwrap();
    assert!(!r.is_ready());
    assert!(!r.try_pass());
    assert_eq!(r.observe(1, &announce(Phase::Downloading)), Observation::Recorded);
    assert_eq!(r.arrival_count(), 1);
    assert!(!r.is_ready());
    assert!(!r.try_pass());
    assert_eq!(r.boundary(), Some(Phase::Downloading));
    assert_eq!(r.observe(2, &announce(Phase::Downloading)), Observation::Recorded);
    assert_eq!(r.arrival_count(), 2);
    assert!(r.is_ready());
    assert!(r.try_pass());
    assert_eq!(r.boundary(), Some(Phase::Compressing));
    assert!(!r.has_entered());
    assert_eq!(r.arrival_count(), 0);
}

#[test]
fn a_withheld_announcement_keeps_the_node_blocked() {
    let mut r = ReadinessRecord::new(4, 2).unwrap();
    r.enter_barrier(Phase::Downloading).unwrap();
    // peers 0 and 1 announce, again and again; peer 3 stays silent
    for _ in 0..50 {
        r.observe(0, &announce(Phase::Downloading));
        r.observe(1, &announce(Phase::Downloading));
        r.observe(0, &announce(Phase::Compressing));
        r.observe(3, &Message::FailedToChangeState);
        r.observe(3, &announce(Phase::Compressing));
        assert!(!r.is_ready());
        assert!(!r.try_pass());
    }
    assert_eq!(r.arrival_count(), 2);
    assert_eq!(r.boundary(), Some(Phase::Downloading));
    assert_eq!(r.observe(3, &announce(Phase::Downloading)), Observation::Recorded);
    assert!(r.try_pass());
}

#[test]
fn the_same_peer_is_counted_once() {
    let mut r = ReadinessRecord::new(3, 0).unwrap();
    r.enter_barrier(Phase::Downloading).unwrap();
    assert_eq!(r.observe(1, &announce(Phase::Downloading)), Observation::Recorded);
    assert_eq!(r.observe(1, &announce(Phase::Downloading)), Observation::Duplicate);
    assert_eq!(r.arrival_count(), 1);
    assert!(!r.is_ready());
}

#[test]
fn a_node_that_has_not_entered_does_not_pass() {
    let mut r = ReadinessRecord::new(3, 0).unwrap();
    assert_eq!(r.observe(1, &announce(Phase::Downloading)), Observation::Recorded);
    assert_eq!(r.observe(2, &announce(Phase::Downloading)), Observation::Recorded);
    assert_eq!(r.arrival_count(), 2);
    assert!(!r.is_ready());
    assert!(!r.try_pass());
    r.enter_barrier(Phase::Downloading).unwrap();
    assert!(r.is_ready());
    assert!(r.try_pass());
}

#[test]
fn a_cohort_of_one_never_waits() {
    let mut r = ReadinessRecord::new(1, 0).unwrap();
    for boundary in [Phase::Downloading, Phase::Compressing, Phase::Pushing, Phase::Completed] {
        assert!(!r.is_ready());
        r.enter_barrier(boundary).unwrap();
        assert!(r.is_ready());
        assert!(r.try_pass());
    }
    assert_eq!(r.boundary(), None);
}

#[test]
fn early_announcements_count_for_the_next_boundary() {
    let mut r = ReadinessRecord::new(3, 0).unwrap();
    r.enter_barrier(Phase::Downloading).unwrap();
    assert_eq!(r.observe(1, &announce(Phase::Downloading)), Observation::Recorded);
    // peer 1 has passed already and is one boundary ahead
    assert_eq!(r.observe(1, &announce(Phase::Compressing)), Observation::RecordedEarly);
    assert_eq!(r.observe(1, &announce(Phase::Compressing)), Observation::Duplicate);
    assert_eq!(r.arrival_count(), 1);
    assert!(!r.is_ready());
    assert_eq!(r.observe(2, &announce(Phase::Downloading)), Observation::Recorded);
    assert!(r.try_pass());
    assert_eq!(r.boundary(), Some(Phase::Compressing));
    assert_eq!(r.arrival_count(), 1);
    r.enter_barrier(Phase::Compressing).unwrap();
    assert!(!r.is_ready());
    assert_eq!(r.observe(2, &announce(Phase::Compressing)), Observation::Recorded);
    assert!(r.try_pass());
    assert_eq!(r.arrival_count(), 0);
}

#[test]
fn messages_that_do_not_count() {
    let mut r = ReadinessRecord::new(3, 1).unwrap();
    r.enter_barrier(Phase::Downloading).unwrap();
    assert_eq!(r.observe(1, &announce(Phase::Downloading)), Observation::UnknownSender);
    assert_eq!(r.observe(3, &announce(Phase::Downloading)), Observation::UnknownSender);
    assert_eq!(r.observe(usize::MAX, &Message::FailedToChangeState), Observation::UnknownSender);
    assert_eq!(r.observe(0, &Message::FailedToChangeState), Observation::PeerFailed);
    assert_eq!(
        r.observe(0, &Message::StateChangingTo(String::from("PushRemote"))),
        Observation::UnknownPhase
    );
    assert_eq!(r.observe(0, &announce(Phase::Init)), Observation::OutOfStep);
    assert_eq!(r.observe(0, &announce(Phase::Pushing)), Observation::OutOfStep);
    assert_eq!(r.observe(0, &announce(Phase::Completed)), Observation::OutOfStep);
    assert_eq!(r.arrival_count(), 0);
    assert!(!r.is_ready());
}

#[test]
fn after_the_last_boundary_nothing_is_left_to_enter() {
    let mut r = ReadinessRecord::new(2, 0).unwrap();
    for boundary in [Phase::Downloading, Phase::Compressing, Phase::Pushing, Phase::Completed] {
        r.enter_barrier(boundary).unwrap();
        assert_eq!(r.observe(1, &announce(boundary)), Observation::Recorded);
        assert!(r.try_pass());
    }
    assert_eq!(r.boundary(), None);
    assert_eq!(r.enter_barrier(Phase::Completed), Err(SyncError::WrongBoundary));
    assert_eq!(r.observe(1, &announce(Phase::Completed)), Observation::OutOfStep);
    assert!(!r.try_pass());
}

#[test]
fn stale_announcements_are_out_of_step() {
    let mut r = ReadinessRecord::new(2, 0).unwrap();
    r.enter_barrier(Phase::Downloading).unwrap();
    r.observe(1, &announce(Phase::Downloading));
    assert!(r.try_pass());
    assert_eq!(r.observe(1, &announce(Phase::Downloading)), Observation::OutOfStep);
    assert_eq!(r.arrival_count(), 0);
}
