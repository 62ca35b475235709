use rat::clock::{seconds_of, timestamp};
use std::time::{Duration, SystemTime, UNIX_EPOCH};

#[test]
fn timestamp_is_the_system_clock_in_seconds() {
    let before = SystemTime::now().duration_since(UNIX_EPOCH).unwrap().as_secs();
    let stamp = timestamp();
    let after = SystemTime::now().duration_since(UNIX_EPOCH).unwrap().as_secs();
    let stamp = stamp.unwrap();
    assert!(before <= stamp);
    assert!(stamp <= after);
}

#[test]
fn timestamp_does_not_run_backwards_by_more_than_the_clock_does() {
    let first = timestamp().unwrap();
    let second = timestamp().unwrap();
    assert!(second + 1 >= first);
    assert!(first > 1_500_000_000);
}

#[test]
fn the_fraction_of_a_second_is_cut_off_not_rounded() {
    assert_eq!(seconds_of(Some(Duration::from_millis(1999))), Some(1));
    assert_eq!(seconds_of(Some(Duration::from_nanos(999_999_999))), Some(0));
    assert_eq!(seconds_of(Some(Duration::from_millis(2000))), Some(2));
}

#[test]
fn seconds_are_counted_whole() {
    assert_eq!(seconds_of(Some(Duration::from_millis(0))), Some(0));
    assert_eq!(seconds_of(Some(Duration::from_millis(999))), Some(0));
    assert_eq!(seconds_of(Some(Duration::from_millis(1000))), Some(1));
    assert_eq!(seconds_of(Some(Duration::new(1700000000, 999_999_999))), Some(1700000000));
    assert_eq!(seconds_of(Some(Duration::from_secs(u64::MAX))), Some(u64::MAX));
}

#[test]
fn a_clock_before_the_epoch_gives_no_timestamp() {
    assert_eq!(seconds_of(None), None);
}
