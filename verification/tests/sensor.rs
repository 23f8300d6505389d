use led_patterns::sensor::PulseCounter;

#[test]
fn a_new_counter_is_at_zero() {
    let counter = PulseCounter::new(65535);
    assert_eq!(counter.get_value(), 0);
    assert_eq!(counter, PulseCounter { count: 0, timeout: 65535 });
}

#[test]
fn a_sample_that_holds_counts() {
    let mut counter = PulseCounter::new(100);
    assert!(counter.tick(Some(true)));
    assert!(counter.tick(Some(true)));
    assert_eq!(counter.get_value(), 2);
}

#[test]
fn a_sample_that_does_not_hold_ends_the_wait() {
    let mut counter = PulseCounter::new(100);
    counter.tick(Some(true));
    assert!(!counter.tick(Some(false)));
    assert_eq!(counter.get_value(), 1);
    assert!(!counter.tick(None));
    assert_eq!(counter.get_value(), 1);
}

#[test]
fn the_timeout_ends_the_wait() {
    let mut counter = PulseCounter::new(5);
    let mut samples = 0;
    loop {
        samples += 1;
        if !counter.tick(Some(true)) {
            break;
        }
    }
    assert_eq!(samples, 5);
    assert_eq!(counter.get_value(), 5);
}

#[test]
fn without_a_timeout_the_first_sample_ends_the_wait() {
    let mut counter = PulseCounter::new(0);
    assert!(!counter.tick(Some(true)));
    assert_eq!(counter.get_value(), 1);
}

#[test]
fn the_count_stops_at_the_top_of_its_range() {
    let mut counter = PulseCounter { count: 65534, timeout: 65535 };
    assert!(!counter.tick(Some(true)));
    assert_eq!(counter.get_value(), 65535);
    assert!(!counter.tick(Some(true)));
    assert_eq!(counter.get_value(), 65535);
}
