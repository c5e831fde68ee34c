use wirecheck::spin::{spin_forever, Spin};

#[test]
fn a_spinner_goes_on_below_the_greatest_value() {
    assert_eq!(spin_forever(0), Spin::Again);
    assert_eq!(spin_forever(1), Spin::Again);
    assert_eq!(spin_forever(u64::MAX - 1), Spin::Again);
}

#[test]
fn a_spinner_stops_when_the_counter_wraps() {
    assert_eq!(spin_forever(u64::MAX), Spin::Exhausted);
}
