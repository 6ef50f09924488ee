use inspection_stats::time::{civil_from_days, day_of, format_timestamp, local_from_epoch, TZ_OFFSET_SECS};

#[test]
fn epoch_is_first_of_january_1970() {
    assert_eq!(civil_from_days(0), (1970, 1, 1));
}

#[test]
fn day_before_epoch() {
    assert_eq!(civil_from_days(-1), (1969, 12, 31));
}

#[test]
fn leap_day_and_new_year() {
    assert_eq!(civil_from_days(19723), (2024, 1, 1));
    assert_eq!(civil_from_days(19782), (2024, 2, 29));
    assert_eq!(civil_from_days(19783), (2024, 3, 1));
    assert_eq!(civil_from_days(11017), (2000, 3, 1));
    assert_eq!(civil_from_days(11016), (2000, 2, 29));
}

#[test]
fn century_without_leap_day() {
    // 1900 is not a leap year: 1900-02-28 is followed by 1900-03-01.
    assert_eq!(civil_from_days(-25508), (1900, 3, 1));
    assert_eq!(civil_from_days(-25509), (1900, 2, 28));
}

#[test]
fn consecutive_days_are_consecutive_dates() {
    let mut prev = civil_from_days(-800_000);
    for z in -799_999i64..800_000 {
        let cur = civil_from_days(z);
        if cur.0 == prev.0 && cur.1 == prev.1 {
            assert_eq!(cur.2, prev.2 + 1);
        } else if cur.0 == prev.0 {
            assert_eq!((cur.1, cur.2), (prev.1 + 1, 1));
        } else {
            assert_eq!((cur.0, cur.1, cur.2, prev.1, prev.2), (prev.0 + 1, 1, 1, 12, 31));
        }
        prev = cur;
    }
}

#[test]
fn extreme_days_do_not_overflow() {
    let (y, m, d) = civil_from_days(i64::MAX - 719_468);
    assert!(y > 0 && (1..=12).contains(&m) && (1..=31).contains(&d));
    let (y, m, d) = civil_from_days(i64::MIN);
    assert!(y < 0 && (1..=12).contains(&m) && (1..=31).contains(&d));
}

#[test]
fn timestamps_render_as_date_and_time() {
    assert_eq!(format_timestamp(0), "1970-01-01 00:00:00");
    assert_eq!(format_timestamp(86_399), "1970-01-01 23:59:59");
    assert_eq!(format_timestamp(1_723_680_000 + 3_723), "2024-08-15 01:02:03");
}

#[test]
fn negative_timestamp_truncates_toward_zero() {
    assert_eq!(format_timestamp(-1), "1970-01-01 00:00:-1");
}

#[test]
fn local_time_is_utc_plus_eight() {
    assert_eq!(TZ_OFFSET_SECS, 8 * 3600);
    assert_eq!(local_from_epoch(Some(0)), 28_800);
    assert_eq!(local_from_epoch(None), 28_800);
    assert_eq!(local_from_epoch(Some(u64::MAX)), i64::MAX);
    assert_eq!(day_of(86_400 * 3 + 5), 3);
    assert_eq!(day_of(-5), 0);
}

#[test]
fn clock_reads_after_2023() {
    let secs = inspection_stats::time::local_secs();
    assert!(secs > 1_700_000_000);
    assert!(inspection_stats::time::sys_now() > 19_600);
}

#[test]
fn the_day_after_a_month_or_year_end() {
    let feb28 = (0..30000).find(|&z| civil_from_days(z) == (2024, 2, 28)).unwrap();
    assert_eq!(civil_from_days(feb28 + 1), (2024, 2, 29));
    assert_eq!(civil_from_days(feb28 + 2), (2024, 3, 1));
    let eve = (0..30000).find(|&z| civil_from_days(z) == (1999, 12, 31)).unwrap();
    assert_eq!(civil_from_days(eve + 1), (2000, 1, 1));
    assert_eq!(civil_from_days(-1), (1969, 12, 31));
}
