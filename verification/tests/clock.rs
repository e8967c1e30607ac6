use mindback::clock::{day_count, half_hour_earlier, half_hour_later, CivilDate, LocalTime};

fn time(hour: u32, minute: u32, second: u32) -> LocalTime {
    LocalTime {
        date: CivilDate {
            year: 2026,
            month: 4,
            day: 28,
        },
        hour,
        minute,
        second,
        nanosecond: 0,
        offset_seconds: 0,
    }
}

#[test]
fn dates_and_times_print_zero_padded() {
    assert_eq!(time(9, 5, 3).hm(), "09:05");
    assert_eq!(time(9, 5, 3).hms(), "09:05:03");
    assert_eq!(time(23, 59, 59).hms_dashed(), "23-59-59");
    let date = |year: i32| CivilDate { year, month: 1, day: 2 }.text();
    assert_eq!(date(2026), "2026-01-02");
    assert_eq!(date(7), "0007-01-02");
    assert_eq!(date(12345), "+12345-01-02");
    assert_eq!(date(-42), "-0042-01-02");
}

#[test]
fn readings_order_by_wall_clock() {
    assert!(time(9, 0, 0).before(&time(9, 0, 1)));
    assert!(!time(9, 0, 1).before(&time(9, 0, 1)));
    let other_offset = LocalTime {
        offset_seconds: 3600,
        ..time(9, 0, 1)
    };
    assert!(other_offset.same_reading_as(&time(9, 0, 1)));
    assert!(CivilDate { year: 2025, month: 12, day: 31 }.before(&CivilDate { year: 2026, month: 1, day: 1 }));
    assert_eq!(
        CivilDate { year: 2024, month: 2, day: 28 }.next(),
        CivilDate { year: 2024, month: 2, day: 29 }
    );
    assert_eq!(
        CivilDate { year: 2023, month: 12, day: 31 }.next(),
        CivilDate { year: 2024, month: 1, day: 1 }
    );
    assert!(CivilDate::leap_year(2000));
    assert!(!CivilDate::leap_year(2100));
    assert!(CivilDate::leap_year(-4));
    assert_eq!(CivilDate::month_length(2023, 2), 28);
    assert_eq!(CivilDate::month_length(2023, 11), 30);
}

#[test]
fn days_count_up_by_one() {
    let d = |year: i32, month: u32, day: u32| day_count(&CivilDate { year, month, day });
    assert_eq!(d(2026, 3, 1) - d(2026, 2, 28), 1);
    assert_eq!(d(2024, 3, 1) - d(2024, 2, 28), 2);
    assert_eq!(d(2000, 1, 1) - d(1999, 12, 31), 1);
    assert_eq!(d(2000, 1, 1) - d(1970, 1, 1), 10957);
    assert_eq!(d(2100, 3, 1) - d(2100, 2, 28), 1);
    assert_eq!(d(1, 1, 1) - d(0, 12, 31), 1);
    assert_eq!(d(-262143, 1, 2) - d(-262143, 1, 1), 1);
}

#[test]
fn earlier_compares_instants() {
    let t = |hour: u32, minute: u32, offset_seconds: i32| LocalTime {
        date: CivilDate { year: 2026, month: 11, day: 1 },
        hour,
        minute,
        second: 0,
        nanosecond: 0,
        offset_seconds,
    };
    // 01:50 at UTC-4 comes before 01:10 at UTC-5.
    assert!(t(1, 50, -4 * 3600).earlier(&t(1, 10, -5 * 3600)));
    assert!(!t(1, 10, -5 * 3600).earlier(&t(1, 50, -4 * 3600)));
    assert!(t(1, 10, -5 * 3600).before(&t(1, 50, -4 * 3600)));
    assert!(!t(2, 0, -4 * 3600).earlier(&t(1, 0, -5 * 3600)));
    let mut late = t(1, 0, -5 * 3600);
    late.nanosecond = 1;
    assert!(t(2, 0, -4 * 3600).earlier(&late));
}

/// Seconds since the Unix epoch of a reading.
fn utc_seconds(t: LocalTime) -> i64 {
    chrono::NaiveDate::from_ymd_opt(t.date.year, t.date.month, t.date.day)
        .unwrap()
        .and_hms_opt(t.hour, t.minute, t.second)
        .unwrap()
        .and_utc()
        .timestamp()
        - t.offset_seconds as i64
}

#[test]
fn half_hour_shifts_move_the_instant() {
    let t = LocalTime {
        date: CivilDate { year: 2026, month: 3, day: 1 },
        hour: 0,
        minute: 0,
        second: 0,
        nanosecond: 0,
        offset_seconds: 8 * 3600,
    };
    let later = half_hour_later(t);
    let earlier = half_hour_earlier(t);
    assert_eq!(utc_seconds(later) - utc_seconds(t), 1800);
    assert_eq!(utc_seconds(t) - utc_seconds(earlier), 1800);
    assert!(t.earlier(&later));
    assert!(earlier.earlier(&t));
    assert_eq!(half_hour_earlier(later), half_hour_earlier(half_hour_later(t)));
}
