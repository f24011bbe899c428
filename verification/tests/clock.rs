use luakit::time::{millis_of, now, secs_of, unix};

#[test]
fn exposes_millisecond_and_second_timestamps() {
    let now = now();
    let unix = unix();

    assert!(unix > 1_000_000_000);
    let now_seconds = u64::try_from(now).unwrap() / 1000;
    assert!(now_seconds.abs_diff(unix) <= 1);
}

#[test]
fn readings_of_one_instant_agree() {
    let reading = Some((1_700_000_123u64, 987_654_321u32));
    assert_eq!(millis_of(reading), 1_700_000_123_987);
    assert_eq!(secs_of(reading), 1_700_000_123);
    assert_eq!(millis_of(reading) / 1000, secs_of(reading) as i64);
}

#[test]
fn readings_before_the_epoch_are_zero() {
    assert_eq!(millis_of(None), 0);
    assert_eq!(secs_of(None), 0);
}

#[test]
fn millisecond_reading_keeps_low_bits() {
    let secs = u64::MAX;
    let expected = ((secs as u128) * 1000 + 999) as i64;
    assert_eq!(millis_of(Some((secs, 999_999_999))), expected);
}
