use chrono::{DateTime, Datelike, Utc};
use kafka_sync::calendar::{WindowStart, MAX_UNIX_SECS, MIN_UNIX_SECS};

fn date(year: i32, month: u32, day: u32) -> WindowStart {
    WindowStart { year, month, day }
}

#[test]
fn known_days_have_their_dates() {
    assert_eq!(WindowStart::at(0), Some(date(1970, 1, 1)));
    assert_eq!(WindowStart::at(-1), Some(date(1969, 12, 31)));
    assert_eq!(WindowStart::at(86_399), Some(date(1970, 1, 1)));
    assert_eq!(WindowStart::at(86_400), Some(date(1970, 1, 2)));
    assert_eq!(WindowStart::at(951_782_400), Some(date(2000, 2, 29)));
    assert_eq!(WindowStart::at(951_868_800), Some(date(2000, 3, 1)));
    assert_eq!(WindowStart::at(1_787_702_400), Some(date(2026, 8, 26)));
    assert_eq!(WindowStart::at(-2_203_891_200), Some(date(1900, 3, 1)));
}

#[test]
fn the_calendar_ends_where_its_years_end() {
    assert!(WindowStart::at(MIN_UNIX_SECS).is_some());
    assert_eq!(WindowStart::at(MIN_UNIX_SECS - 1), None);
    assert!(WindowStart::at(MAX_UNIX_SECS).is_some());
    assert_eq!(WindowStart::at(MAX_UNIX_SECS + 1), None);
    assert_eq!(WindowStart::at(i64::MIN), None);
    assert_eq!(WindowStart::at(i64::MAX), None);
    assert_eq!(DateTime::<Utc>::MIN_UTC.timestamp(), MIN_UNIX_SECS);
    assert_eq!(DateTime::<Utc>::MAX_UTC.timestamp(), MAX_UNIX_SECS);
}

/// Days from 1970-01-01, counted month by month.
fn days_since_epoch(start: &WindowStart) -> i64 {
    let leap = |y: i64| y % 4 == 0 && (y % 100 != 0 || y % 400 == 0);
    let year = i64::from(start.year);
    let past = year - 1;
    let mut days = 365 * past + past.div_euclid(4) - past.div_euclid(100) + past.div_euclid(400);
    for month in 1..start.month {
        days += match month {
            2 if leap(year) => 29,
            2 => 28,
            4 | 6 | 9 | 11 => 30,
            _ => 31,
        };
    }
    days + i64::from(start.day) - 719_163
}

#[test]
fn dates_follow_days() {
    let mut secs = -70_000_000_000_i64;
    let mut before: Option<(i64, WindowStart)> = None;
    while secs < 70_000_000_000 {
        let Some(start) = WindowStart::at(secs) else {
            panic!("{secs} has a date");
        };
        assert_eq!(days_since_epoch(&start), secs.div_euclid(86_400));
        let Some(time) = DateTime::<Utc>::from_timestamp(secs, 0) else {
            panic!("{secs} has a time");
        };
        assert_eq!(start, date(time.year(), time.month(), time.day()));
        if let Some((earlier, previous)) = before {
            assert_eq!(start == previous, earlier.div_euclid(86_400) == secs.div_euclid(86_400));
        }
        before = Some((secs, start));
        secs += 7_654_321;
    }
}
