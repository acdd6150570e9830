use chrono::{Datelike, TimeZone, Timelike};
use cts6_emulator::clock::{
    current_year, elapsed_ms, local_now, local_time, year_at, year_stamp, MeetDate, MAX_UTC_SECS,
    MIN_UTC_SECS,
};
use cts6_emulator::notation::{fmt_time, place_label, plural};

#[test]
fn a_known_moment() {
    // 2024-02-29 12:34:56 UTC, a Thursday; two hours east of UTC.
    let t = local_time(MeetDate { utc_secs: 1_709_210_096, offset_secs: 7_200 });
    assert_eq!((t.year, t.month, t.day), (2024, 2, 29));
    assert_eq!((t.hour, t.minute, t.second), (14, 34, 56));
    assert_eq!(t.days_from_sunday, 4);
}

#[test]
fn an_offset_moves_the_date() {
    // 1999-12-31 23:30:00 UTC is a Friday; an hour east it is Saturday 2000-01-01.
    let west = local_time(MeetDate { utc_secs: 946_683_000, offset_secs: 0 });
    assert_eq!((west.year, west.month, west.day, west.days_from_sunday), (1999, 12, 31, 5));
    let east = local_time(MeetDate { utc_secs: 946_683_000, offset_secs: 3_600 });
    assert_eq!((east.year, east.month, east.day, east.days_from_sunday), (2000, 1, 1, 6));
    assert_eq!((east.hour, east.minute, east.second), (0, 30, 0));
}

#[test]
fn moments_agree_with_the_calendar() {
    for utc_secs in [0i64, -1, -86_401, 951_782_400, 4_102_444_799, -62_135_596_800] {
        for offset_secs in [0, 19_800, -34_200, 86_399, -86_399] {
            let t = local_time(MeetDate { utc_secs, offset_secs });
            let zone = chrono::FixedOffset::east_opt(offset_secs).unwrap();
            let d = zone.timestamp_opt(utc_secs, 0).unwrap();
            assert_eq!((t.year, t.month, t.day), (d.year(), d.month(), d.day()));
            assert_eq!((t.hour, t.minute, t.second), (d.hour(), d.minute(), d.second()));
            assert_eq!(t.days_from_sunday, d.weekday().num_days_from_sunday());
        }
    }
}

#[test]
fn the_calendar_is_gregorian() {
    // Day by day from 1600-01-01, a Saturday, over more than 400 years.
    let mut utc_secs: i64 = -11_676_096_000;
    let mut weekday = 6;
    for year in 1600..=2005 {
        let leap = year % 4 == 0 && (year % 100 != 0 || year % 400 == 0);
        let february = if leap { 29 } else { 28 };
        let lengths = [31, february, 31, 30, 31, 30, 31, 31, 30, 31, 30, 31];
        for (month, length) in (1..).zip(lengths) {
            for day in 1..=length {
                let t = local_time(MeetDate { utc_secs, offset_secs: 0 });
                assert_eq!((t.year, t.month, t.day), (year, month, day));
                assert_eq!(t.days_from_sunday, weekday);
                utc_secs += 86_400;
                weekday = (weekday + 1) % 7;
            }
        }
    }
    assert_eq!(utc_secs, 1_136_073_600);
}

#[test]
fn the_ends_of_the_calendar() {
    for (utc_secs, offset_secs, date) in [
        (MIN_UTC_SECS, 0, (-262_143, 1, 1)),
        (MAX_UTC_SECS, 0, (262_142, 12, 31)),
        (MIN_UTC_SECS, -86_399, (-262_144, 12, 31)),
        (MAX_UTC_SECS, 86_399, (262_143, 1, 1)),
    ] {
        let t = local_time(MeetDate { utc_secs, offset_secs });
        assert_eq!((t.year, t.month, t.day), date);
    }
}

#[test]
fn the_current_moment() {
    let before = chrono::Utc::now();
    let now = local_now();
    let after = chrono::Utc::now();
    assert!(before.timestamp() <= now.utc_secs && now.utc_secs <= after.timestamp());
    assert!(now.offset_secs.abs() < 86_400);
    let year = current_year() as i32;
    assert!(before.year() <= year && year <= after.year() + 1);
    assert!(now.utc_secs >= 0 && year >= 1970);
}

#[test]
fn year_stamps() {
    assert_eq!(year_stamp(2025), 2025);
    assert_eq!(year_stamp(0), 0);
    assert_eq!(year_stamp(65_535), 65_535);
    assert_eq!(year_stamp(65_536), 2000);
    assert_eq!(year_stamp(-1), 2000);
}

#[test]
fn years_of_moments() {
    for (utc_secs, year) in [
        (0, 1970),
        (31_535_999, 1970),
        (31_536_000, 1971),
        (-1, 1969),
        (1_709_210_096, 2024),
        (1_735_689_599, 2024),
        (1_735_689_600, 2025),
        (MAX_UTC_SECS, 2000),
        (MIN_UTC_SECS, 2000),
    ] {
        assert_eq!(year_at(utc_secs), year);
    }
}

#[test]
fn elapsed_time() {
    assert_eq!(elapsed_ms(1_000_000_000, 2_234_999_999), 1_234);
    assert_eq!(elapsed_ms(5, 4), 0);
    assert_eq!(elapsed_ms(0, 999_999), 0);
    assert_eq!(elapsed_ms(0, u64::MAX), u32::MAX);
    assert_eq!(elapsed_ms(0, 4_294_967_295_999_999), u32::MAX);
    assert_eq!(elapsed_ms(0, 4_294_967_294_999_999), u32::MAX - 1);
}

#[test]
fn times_are_shown() {
    assert_eq!(fmt_time(0), "0.000");
    assert_eq!(fmt_time(1_234), "1.234");
    assert_eq!(fmt_time(59_999), "59.999");
    assert_eq!(fmt_time(60_000), "1:00.000");
    assert_eq!(fmt_time(83_045), "1:23.045");
    assert_eq!(fmt_time(3_600_007), "60:00.007");
    assert_eq!(fmt_time(u32::MAX), "71582:47.295");
}

#[test]
fn places_and_plurals_are_shown() {
    for (p, s) in [(1, "1st"), (2, "2nd"), (3, "3rd"), (4, "4th"), (11, "11th"), (21, "21th"), (0, "0th")] {
        assert_eq!(place_label(p), s);
    }
    assert_eq!(plural(1, "", "es"), "");
    assert_eq!(plural(0, "", "es"), "es");
    assert_eq!(plural(2, " ", "es"), "es");
}
