use sphere_physics::fps::{tally, FpsCounter};

#[test]
fn a_new_counter_has_counted_nothing() {
    let counter = FpsCounter::new();
    assert_eq!(counter.pending(), 0);
}

#[test]
fn frames_within_the_first_second_accumulate() {
    let mut counter = FpsCounter::new();
    assert_eq!(counter.count(), None);
    assert_eq!(counter.count(), None);
    assert_eq!(counter.pending(), 2);
}

#[test]
fn tally_keeps_counting_before_a_second_is_over() {
    assert_eq!(tally(0, 0), (1, None));
    assert_eq!(tally(59, 0), (60, None));
}

#[test]
fn tally_reports_and_restarts_after_a_second() {
    assert_eq!(tally(59, 1), (0, Some(60)));
    assert_eq!(tally(0, 7), (0, Some(1)));
}
