use server::sim::{
    snapshot_interval_ticks, tick_duration, tick_duration_nanos, SNAPSHOT_RATE_HZ, TICK_RATE_HZ,
};
use std::time::Duration;

#[test]
fn tick_duration_is_one_sixtieth_of_a_second() {
    assert_eq!(tick_duration(), Duration::from_secs_f64(1.0 / TICK_RATE_HZ as f64));
    assert_eq!(tick_duration(), Duration::from_nanos(16_666_667));
}

#[test]
fn tick_duration_nanos_rounds_to_nearest() {
    assert_eq!(tick_duration_nanos(), 16_666_667);
}

#[test]
fn snapshot_every_third_tick() {
    assert_eq!(snapshot_interval_ticks(), 3);
    assert_eq!(snapshot_interval_ticks(), TICK_RATE_HZ / SNAPSHOT_RATE_HZ);
}
