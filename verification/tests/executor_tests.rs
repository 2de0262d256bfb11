use phase_sync::executor::{plan_units, unit_duration, MIN_UNIT_SECONDS, UNIT_SECONDS_BOUND};

#[test]
fn the_bounds_of_a_unit_of_work() {
    assert_eq!(MIN_UNIT_SECONDS, 1);
    assert_eq!(UNIT_SECONDS_BOUND, 10);
}

#[test]
fn a_unit_takes_between_one_and_nine_seconds() {
    for _ in 0..2000 {
        let s = unit_duration();
        assert!(1 <= s && s < 10);
    }
}

#[test]
fn durations_are_drawn_not_fixed() {
    let first = unit_duration();
    let mut differs = false;
    for _ in 0..500 {
        if unit_duration() != first {
            differs = true;
        }
    }
    assert!(differs);
}

#[test]
fn a_plan_has_a_time_for_every_unit() {
    for units in [0usize, 1, 2, 17] {
        let plan = plan_units(units);
        assert_eq!(plan.len(), units);
        assert!(plan.iter().all(|&s| 1 <= s && s < 10));
        let total: u64 = plan.iter().sum();
        assert!(units as u64 <= total && total <= 9 * units as u64);
    }
}
