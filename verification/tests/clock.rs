use rfshare::clock::{
    civil_date, clock_nanos, now_str, subsecond_nanos, time_string, unix_now, unix_seconds,
};
use std::time::{Duration, UNIX_EPOCH};

#[test]
fn dates_of_the_calendar() {
    assert_eq!(civil_date(0), (1970, 1, 1));
    assert_eq!(civil_date(58), (1970, 2, 28));
    assert_eq!(civil_date(59), (1970, 3, 1));
    assert_eq!(civil_date(789), (1972, 2, 29));
    assert_eq!(civil_date(11_016), (2000, 2, 29));
    assert_eq!(civil_date(11_017), (2000, 3, 1));
    assert_eq!(civil_date(19_723), (2024, 1, 1));
    assert_eq!(civil_date(47_540), (2100, 2, 28));
    assert_eq!(civil_date(47_541), (2100, 3, 1));
}

#[test]
fn each_day_follows_the_one_before() {
    let mut last = civil_date(0);
    for days in 1..200_000u64 {
        let (y, m, d) = civil_date(days);
        let leap = (last.0 % 4 == 0 && last.0 % 100 != 0) || last.0 % 400 == 0;
        let len = match last.1 {
            2 => if leap { 29 } else { 28 },
            4 | 6 | 9 | 11 => 30,
            _ => 31,
        };
        let next = if last.2 < len {
            (last.0, last.1, last.2 + 1)
        } else if last.1 < 12 {
            (last.0, last.1 + 1, 1)
        } else {
            (last.0 + 1, 1, 1)
        };
        assert_eq!((y, m, d), next);
        last = (y, m, d);
    }
}

#[test]
fn times_for_the_log() {
    assert_eq!(time_string(0), "1970-01-01 00:00:00 UTC");
    assert_eq!(time_string(951_782_399), "2000-02-28 23:59:59 UTC");
    assert_eq!(time_string(951_782_400), "2000-02-29 00:00:00 UTC");
    assert_eq!(time_string(1_700_000_000), "2023-11-14 22:13:20 UTC");
}

#[test]
fn the_clock_is_read() {
    let before = std::time::SystemTime::now()
        .duration_since(std::time::UNIX_EPOCH)
        .unwrap()
        .as_secs();
    let now = unix_now();
    assert!(now >= before && now <= before + 5);
    assert!(clock_nanos() < 1_000_000_000);
    let s = now_str();
    assert_eq!(s.len(), 23);
    assert!(s.ends_with(" UTC"));
    assert!(s == time_string(now) || s == time_string(now + 1) || s == time_string(now + 2));
}

#[test]
fn times_are_counted_from_the_epoch() {
    let t = UNIX_EPOCH + Duration::new(1_700_000_000, 123_456_789);
    assert_eq!(unix_seconds(t), 1_700_000_000);
    assert_eq!(subsecond_nanos(t), 123_456_789);
    assert_eq!(unix_seconds(UNIX_EPOCH), 0);
    assert_eq!(subsecond_nanos(UNIX_EPOCH), 0);
}

#[test]
fn times_before_the_epoch_count_nothing() {
    let t = UNIX_EPOCH - Duration::new(5, 7);
    assert_eq!(unix_seconds(t), 0);
    assert_eq!(subsecond_nanos(t), 0);
}
