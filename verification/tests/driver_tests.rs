use phase_sync::driver::{Command, Driver, DriverError, Event, Stage};
use phase_sync::phase::Phase;

fn urls(n: usize) -> Vec<String> {
    (0..n).map(|i| format!("www.w{}.com", i + 1)).collect()
}

#[test]
fn a_new_driver_waits_for_the_start() {
    let d = Driver::new(urls(2));
    assert_eq!(d.stage(), Stage::Idle);
    assert!(!d.is_done());
    assert_eq!(d.worker().phase(), Phase::Init);
    assert_eq!(d.worker().required_count(), 2);
}

#[test]
fn the_driver_walks_the_pipeline_in_order() {
    let mut d = Driver::new(urls(2));
    assert_eq!(d.handle_with(Event::Start, vec![]), Ok(Command::Enter(Phase::Downloading)));
    assert_eq!(d.stage(), Stage::Waiting);
    assert_eq!(d.worker().phase(), Phase::Downloading);

    assert_eq!(d.handle_with(Event::Released, vec![3, 4]), Ok(Command::Work(vec![3, 4])));
    assert_eq!(d.stage(), Stage::Working);
    assert_eq!(d.worker().downloaded_count(), 0);

    assert_eq!(d.handle_with(Event::WorkDone, vec![]), Ok(Command::Enter(Phase::Compressing)));
    assert_eq!(d.worker().downloaded_count(), 2);
    assert_eq!(d.worker().phase(), Phase::Compressing);

    assert_eq!(d.handle_with(Event::Released, vec![5]), Ok(Command::Work(vec![5])));
    assert!(!d.worker().is_compress());
    assert_eq!(d.handle_with(Event::WorkDone, vec![]), Ok(Command::Enter(Phase::Pushing)));
    assert!(d.worker().is_compress());

    assert_eq!(d.handle_with(Event::Released, vec![9]), Ok(Command::Work(vec![9])));
    assert!(!d.worker().is_pushed());
    assert_eq!(d.handle_with(Event::WorkDone, vec![]), Ok(Command::Enter(Phase::Completed)));
    assert!(d.worker().is_pushed());
    assert_eq!(d.worker().phase(), Phase::Completed);
    assert!(!d.is_done());

    assert_eq!(d.handle_with(Event::Released, vec![]), Ok(Command::Stop));
    assert!(d.is_done());
    assert_eq!(d.stage(), Stage::Done);
    assert_eq!(d.worker().phase(), Phase::Completed);
    assert_eq!(d.worker().downloaded_count(), 2);
    assert!(d.worker().is_compress());
    assert!(d.worker().is_pushed());
}

#[test]
fn events_out_of_turn_are_refused_and_change_nothing() {
    let mut d = Driver::new(urls(1));
    for e in [Event::WorkDone, Event::Released] {
        assert_eq!(
            d.handle(e),
            Err(DriverError::UnexpectedEvent { stage: Stage::Idle, event: e })
        );
    }
    assert_eq!(d.stage(), Stage::Idle);
    d.handle(Event::Start).unwrap();
    for e in [Event::Start, Event::WorkDone] {
        assert_eq!(
            d.handle_with(e, vec![1]),
            Err(DriverError::UnexpectedEvent { stage: Stage::Waiting, event: e })
        );
    }
    assert_eq!(d.worker().phase(), Phase::Downloading);
    d.handle(Event::Released).unwrap();
    for e in [Event::Start, Event::Released] {
        assert_eq!(
            d.handle(e),
            Err(DriverError::UnexpectedEvent { stage: Stage::Working, event: e })
        );
    }
    assert_eq!(d.worker().downloaded_count(), 0);
    assert_eq!(d.stage(), Stage::Working);
}

#[test]
fn a_finished_driver_refuses_every_event() {
    let mut d = Driver::new(urls(0));
    let mut event = Event::Start;
    while !d.is_done() {
        event = match d.handle(event).unwrap() {
            Command::Work(_) => Event::WorkDone,
            Command::Enter(_) => Event::Released,
            Command::Stop => Event::Start,
        };
    }
    for e in [Event::Start, Event::WorkDone, Event::Released] {
        assert_eq!(
            d.handle(e),
            Err(DriverError::UnexpectedEvent { stage: Stage::Done, event: e })
        );
    }
}

#[test]
fn a_phase_without_units_asks_for_no_work() {
    let mut d = Driver::new(urls(0));
    assert_eq!(d.handle(Event::Start), Ok(Command::Enter(Phase::Downloading)));
    // nothing to download: straight on to the next boundary
    assert_eq!(d.handle(Event::Released), Ok(Command::Enter(Phase::Compressing)));
    assert_eq!(d.worker().phase(), Phase::Compressing);
    assert_eq!(d.worker().downloaded_count(), 0);
}

#[test]
fn handle_draws_a_time_for_each_unit() {
    let mut d = Driver::new(urls(5));
    d.handle(Event::Start).unwrap();
    match d.handle(Event::Released).unwrap() {
        Command::Work(plan) => {
            assert_eq!(plan.len(), 5);
            assert!(plan.iter().all(|&s| 1 <= s && s < 10));
        }
        other => panic!("expected work, got {:?}", other),
    }
    assert_eq!(d.handle(Event::WorkDone), Ok(Command::Enter(Phase::Compressing)));
    match d.handle(Event::Released).unwrap() {
        Command::Work(plan) => assert_eq!(plan.len(), 1),
        other => panic!("expected work, got {:?}", other),
    }
}

#[test]
fn the_pipeline_ends_within_eight_events() {
    for n in [0usize, 1, 2, 10] {
        let mut d = Driver::new(urls(n));
        let mut event = Event::Start;
        let mut events = 0;
        while !d.is_done() {
            events += 1;
            assert!(events <= 8);
            event = match d.handle(event).unwrap() {
                Command::Work(_) => Event::WorkDone,
                Command::Enter(_) => Event::Released,
                Command::Stop => Event::Start,
            };
        }
        assert_eq!(d.worker().phase(), Phase::Completed);
        assert_eq!(d.worker().downloaded_count(), n);
        assert!(d.worker().is_compress());
        assert!(d.worker().is_pushed());
    }
}
