//! Wall-clock dates for the frames that carry one, and race-relative time.

use vstd::prelude::*;

verus! {

/// Unix time of the first second that a date can hold: January 1 of the year
/// -262143.
pub const MIN_UTC_SECS: i64 = -8_334_601_228_800;

/// Unix time of the last second that a date can hold: December 31 of the year
/// 262142.
pub const MAX_UTC_SECS: i64 = 8_210_266_876_799;

/// A moment, in seconds since 1970-01-01 00:00:00 UTC, together with the
/// distance of the local time zone from UTC at that moment.
#[derive(Debug, Clone, Copy, PartialEq, Eq, Structural)]
pub struct MeetDate {
    pub utc_secs: i64,
    pub offset_secs: i32,
}

impl MeetDate {
    /// The moment lies in the calendar's range and the offset is less than a
    /// day.
    pub open spec fn wf(self) -> bool {
        &&& MIN_UTC_SECS <= self.utc_secs <= MAX_UTC_SECS
        &&& -86_400 < self.offset_secs < 86_400
    }

    /// Seconds since the epoch as the local clock shows them.
    pub open spec fn local_secs(self) -> int {
        self.utc_secs + self.offset_secs
    }
}

/// Whether a year of the Gregorian calendar has a February 29.
pub open spec fn is_leap(year: int) -> bool {
    year % 4 == 0 && (year % 100 != 0 || year % 400 == 0)
}

/// Leap years from year 1 up to `year`, counted backwards before it.
pub open spec fn leap_years_to(year: int) -> int {
    year / 4 - year / 100 + year / 400
}

/// Days from 1970-01-01 to January 1 of a year.
pub open spec fn year_start(year: int) -> int {
    365 * (year - 1970) + leap_years_to(year - 1) - leap_years_to(1969)
}

/// Days from January 1 to the first of a month; the months count from 1, and
/// month 13 is January of the next year.
pub open spec fn month_start(leap: bool, month: int) -> int {
    (if month <= 1 {
        0int
    } else if month == 2 {
        31
    } else if month == 3 {
        59
    } else if month == 4 {
        90
    } else if month == 5 {
        120
    } else if month == 6 {
        151
    } else if month == 7 {
        181
    } else if month == 8 {
        212
    } else if month == 9 {
        243
    } else if month == 10 {
        273
    } else if month == 11 {
        304
    } else if month == 12 {
        334
    } else {
        365
    }) + if leap && month > 2 {
        1int
    } else {
        0
    }
}

/// Whether a day, counted from 1970-01-01, lies in a year.
pub open spec fn in_year(day: int, year: int) -> bool {
    year_start(year) <= day < year_start(year + 1)
}

/// Whether a day, counted from 1970-01-01, lies in a month of a year.
pub open spec fn in_month(day: int, year: int, month: int) -> bool {
    &&& 1 <= month <= 12
    &&& month_start(is_leap(year), month) <= day - year_start(year) < month_start(
        is_leap(year),
        month + 1,
    )
}

/// The year of a day that is counted from 1970-01-01.
pub open spec fn calendar_year(day: int) -> int {
    choose|year: int| in_year(day, year)
}

/// The month of a day that is counted from 1970-01-01.
pub open spec fn calendar_month(day: int) -> int {
    choose|month: int| in_month(day, calendar_year(day), month)
}

/// The day of the month of a day that is counted from 1970-01-01.
pub open spec fn calendar_day(day: int) -> int {
    day - year_start(calendar_year(day)) - month_start(
        is_leap(calendar_year(day)),
        calendar_month(day),
    ) + 1
}

proof fn lemma_years_follow(year: int)
    ensures
        year_start(year + 1) == year_start(year) + if is_leap(year) {
            366int
        } else {
            365
        },
{
}

proof fn lemma_year_of_later_day(day: int, year: int)
    requires
        year_start(year) <= day,
    ensures
        exists|y: int| in_year(day, y),
    decreases day - year_start(year),
{
    if day < year_start(year + 1) {
        assert(in_year(day, year));
    } else {
        lemma_years_follow(year);
        lemma_year_of_later_day(day, year + 1);
    }
}

proof fn lemma_year_of_earlier_day(day: int, year: int)
    requires
        day < year_start(year),
    ensures
        exists|y: int| in_year(day, y),
    decreases year_start(year) - day,
{
    if year_start(year - 1) <= day {
        assert(in_year(day, year - 1));
    } else {
        lemma_years_follow(year - 1);
        lemma_year_of_earlier_day(day, year - 1);
    }
}

/// Every day is one of the Gregorian calendar: its month is one of the twelve,
/// its day is one of that month's, and together with its year they say which
/// day it is.
pub proof fn law_every_day_has_a_date(day: int)
    ensures
        in_year(day, calendar_year(day)),
        in_month(day, calendar_year(day), calendar_month(day)),
        1 <= calendar_month(day) <= 12,
        1 <= calendar_day(day) <= 31,
        day == year_start(calendar_year(day)) + month_start(
            is_leap(calendar_year(day)),
            calendar_month(day),
        ) + calendar_day(day) - 1,
{
    if year_start(1970) <= day {
        lemma_year_of_later_day(day, 1970);
    } else {
        lemma_year_of_earlier_day(day, 1970);
    }
    let year = calendar_year(day);
    assert(in_year(day, year));
    lemma_years_follow(year);
    let leap = is_leap(year);
    let of_year = day - year_start(year);
    let month = if of_year < month_start(leap, 2) {
        1int
    } else if of_year < month_start(leap, 3) {
        2
    } else if of_year < month_start(leap, 4) {
        3
    } else if of_year < month_start(leap, 5) {
        4
    } else if of_year < month_start(leap, 6) {
        5
    } else if of_year < month_start(leap, 7) {
        6
    } else if of_year < month_start(leap, 8) {
        7
    } else if of_year < month_start(leap, 9) {
        8
    } else if of_year < month_start(leap, 10) {
        9
    } else if of_year < month_start(leap, 11) {
        10
    } else if of_year < month_start(leap, 12) {
        11
    } else {
        12
    };
    assert(in_month(day, year, month));
}

/// A day has one date only: the day that is `of_month` days into a month of a
/// year has just that year, month and day of the month.
pub proof fn law_dates_are_unique(year: int, month: int, of_month: int)
    requires
        1 <= month <= 12,
        1 <= of_month <= month_start(is_leap(year), month + 1) - month_start(is_leap(year), month),
    ensures
        ({
            let day = year_start(year) + month_start(is_leap(year), month) + of_month - 1;
            &&& calendar_year(day) == year
            &&& calendar_month(day) == month
            &&& calendar_day(day) == of_month
        }),
{
    let day = year_start(year) + month_start(is_leap(year), month) + of_month - 1;
    law_every_day_has_a_date(day);
    lemma_years_follow(year);
    lemma_years_ascend(year, calendar_year(day));
    lemma_years_ascend(calendar_year(day), year);
}

proof fn lemma_years_ascend(a: int, b: int)
    ensures
        a < b ==> year_start(a + 1) <= year_start(b),
{
}

/// `chrono::Timelike::second` on the moment `utc_secs` at the fixed offset:
/// the seconds the local clock shows.
#[verifier::external_body]
fn chrono_second(utc_secs: i64, offset_secs: i32) -> (r: u32)
    requires
        MIN_UTC_SECS <= utc_secs <= MAX_UTC_SECS,
        -86_400 < offset_secs < 86_400,
    ensures
        r == (utc_secs + offset_secs) % 60,
{
    let zone = chrono::FixedOffset::east_opt(offset_secs).unwrap();
    let moment = chrono::DateTime::from_timestamp(utc_secs, 0).unwrap();
    chrono::Timelike::second(&moment.with_timezone(&zone))
}

/// `chrono::Timelike::minute` on the moment `utc_secs` at the fixed offset:
/// the minutes the local clock shows.
#[verifier::external_body]
fn chrono_minute(utc_secs: i64, offset_secs: i32) -> (r: u32)
    requires
        MIN_UTC_SECS <= utc_secs <= MAX_UTC_SECS,
        -86_400 < offset_secs < 86_400,
    ensures
        r == (utc_secs + offset_secs) / 60 % 60,
{
    let zone = chrono::FixedOffset::east_opt(offset_secs).unwrap();
    let moment = chrono::DateTime::from_timestamp(utc_secs, 0).unwrap();
    chrono::Timelike::minute(&moment.with_timezone(&zone))
}

/// `chrono::Timelike::hour` on the moment `utc_secs` at the fixed offset: the
/// hour the local clock shows, from 0 to 23.
#[verifier::external_body]
fn chrono_hour(utc_secs: i64, offset_secs: i32) -> (r: u32)
    requires
        MIN_UTC_SECS <= utc_secs <= MAX_UTC_SECS,
        -86_400 < offset_secs < 86_400,
    ensures
        r == (utc_secs + offset_secs) / 3600 % 24,
{
    let zone = chrono::FixedOffset::east_opt(offset_secs).unwrap();
    let moment = chrono::DateTime::from_timestamp(utc_secs, 0).unwrap();
    chrono::Timelike::hour(&moment.with_timezone(&zone))
}

/// `chrono::Weekday::num_days_from_sunday` of the local date's
/// `chrono::Datelike::weekday`: days since the last Sunday. The epoch's first
/// day was a Thursday, four days from Sunday.
#[verifier::external_body]
fn chrono_days_from_sunday(utc_secs: i64, offset_secs: i32) -> (r: u32)
    requires
        MIN_UTC_SECS <= utc_secs <= MAX_UTC_SECS,
        -86_400 < offset_secs < 86_400,
    ensures
        r == ((utc_secs + offset_secs) / 86_400 + 4) % 7,
{
    let zone = chrono::FixedOffset::east_opt(offset_secs).unwrap();
    let moment = chrono::DateTime::from_timestamp(utc_secs, 0).unwrap();
    chrono::Datelike::weekday(&moment.with_timezone(&zone)).num_days_from_sunday()
}

/// `chrono::Datelike::year` on the moment `utc_secs` at the fixed offset: the
/// year of the local date in the Gregorian calendar, which is taken to go on for
/// ever in both directions.
#[verifier::external_body]
fn chrono_year(utc_secs: i64, offset_secs: i32) -> (r: i32)
    requires
        MIN_UTC_SECS <= utc_secs <= MAX_UTC_SECS,
        -86_400 < offset_secs < 86_400,
    ensures
        r == calendar_year((utc_secs + offset_secs) / 86_400),
{
    let zone = chrono::FixedOffset::east_opt(offset_secs).unwrap();
    let moment = chrono::DateTime::from_timestamp(utc_secs, 0).unwrap();
    chrono::Datelike::year(&moment.with_timezone(&zone))
}

/// `chrono::Datelike::month` on the moment `utc_secs` at the fixed offset: the
/// month of the local date in the Gregorian calendar, from 1.
#[verifier::external_body]
fn chrono_month(utc_secs: i64, offset_secs: i32) -> (r: u32)
    requires
        MIN_UTC_SECS <= utc_secs <= MAX_UTC_SECS,
        -86_400 < offset_secs < 86_400,
    ensures
        r == calendar_month((utc_secs + offset_secs) / 86_400),
{
    let zone = chrono::FixedOffset::east_opt(offset_secs).unwrap();
    let moment = chrono::DateTime::from_timestamp(utc_secs, 0).unwrap();
    chrono::Datelike::month(&moment.with_timezone(&zone))
}

/// `chrono::Datelike::day` on the moment `utc_secs` at the fixed offset: the
/// day of the month of the local date in the Gregorian calendar, from 1.
#[verifier::external_body]
fn chrono_day(utc_secs: i64, offset_secs: i32) -> (r: u32)
    requires
        MIN_UTC_SECS <= utc_secs <= MAX_UTC_SECS,
        -86_400 < offset_secs < 86_400,
    ensures
        r == calendar_day((utc_secs + offset_secs) / 86_400),
{
    let zone = chrono::FixedOffset::east_opt(offset_secs).unwrap();
    let moment = chrono::DateTime::from_timestamp(utc_secs, 0).unwrap();
    chrono::Datelike::day(&moment.with_timezone(&zone))
}

/// `chrono::Local::now`, taken apart into Unix time and UTC offset. What it
/// returns depends on the machine's clock and time zone; it never lies before
/// 1970, which chrono refuses of a clock, nor beyond what a date can hold.
#[verifier::external_body]
fn chrono_local_now() -> (r: (i64, i32))
    ensures
        0 <= r.0 <= MAX_UTC_SECS,
        -86_400 < r.1 < 86_400,
{
    let now = chrono::Local::now();
    (now.timestamp(), now.offset().local_minus_utc())
}

/// `chrono::Utc::now` as Unix time. What it returns depends on the machine's
/// clock; it never lies before 1970, which chrono refuses of a clock, nor beyond
/// what a date can hold.
#[verifier::external_body]
fn chrono_utc_now() -> (r: i64)
    ensures
        0 <= r <= MAX_UTC_SECS,
{
    chrono::Utc::now().timestamp()
}

/// The current local moment. It is not before 1970.
pub fn local_now() -> (r: MeetDate)
    ensures
        r.wf(),
        r.utc_secs >= 0,
{
    let (utc_secs, offset_secs) = chrono_local_now();
    MeetDate { utc_secs, offset_secs }
}

/// A calendar year as the year field of a frame; 2000 for one that does not
/// fit.
pub open spec fn year_stamp_of(year: int) -> u16 {
    if 0 <= year <= u16::MAX {
        year as u16
    } else {
        2000
    }
}

pub fn year_stamp(year: i32) -> (r: u16)
    ensures
        r == year_stamp_of(year as int),
{
    if 0 <= year && year <= 65_535 {
        year as u16
    } else {
        2000
    }
}

/// The calendar year (UTC) of a moment as the year field of a frame.
pub open spec fn year_stamp_at(utc_secs: i64) -> u16 {
    year_stamp_of(calendar_year(utc_secs as int / 86_400))
}

pub fn year_at(utc_secs: i64) -> (r: u16)
    requires
        MIN_UTC_SECS <= utc_secs <= MAX_UTC_SECS,
    ensures
        r == year_stamp_at(utc_secs),
        utc_secs >= 0 ==> r >= 1970,
{
    proof {
        let day = utc_secs as int / 86_400;
        law_every_day_has_a_date(day);
        lemma_years_ascend(calendar_year(day), 1970);
    }
    year_stamp(chrono_year(utc_secs, 0))
}

/// Current calendar year (UTC), used to stamp the year field of the
/// event-result frame: that of a moment since 1970.
pub fn current_year() -> (r: u16)
    ensures
        exists|utc_secs: i64|
            0 <= utc_secs <= MAX_UTC_SECS && r == #[trigger] year_stamp_at(utc_secs),
        r >= 1970,
{
    year_at(chrono_utc_now())
}

/// The local date and time of a moment, as a clock face and a calendar show
/// them.
#[derive(Debug, Clone, Copy, PartialEq, Eq, Structural)]
pub struct LocalTime {
    pub second: u32,
    pub minute: u32,
    pub hour: u32,
    pub days_from_sunday: u32,
    pub month: u32,
    pub day: u32,
    pub year: i32,
}

impl LocalTime {
    /// Each field lies in the range that its name promises.
    pub open spec fn wf(self) -> bool {
        &&& self.second < 60
        &&& self.minute < 60
        &&& self.hour < 24
        &&& self.days_from_sunday < 7
        &&& 1 <= self.month <= 12
        &&& 1 <= self.day <= 31
        &&& -262_144 <= self.year <= 262_143
    }
}

/// The local date and time of a moment.
pub open spec fn local_time_of(date: MeetDate) -> LocalTime {
    LocalTime {
        second: (date.local_secs() % 60) as u32,
        minute: (date.local_secs() / 60 % 60) as u32,
        hour: (date.local_secs() / 3600 % 24) as u32,
        days_from_sunday: ((date.local_secs() / 86_400 + 4) % 7) as u32,
        month: calendar_month(date.local_secs() / 86_400) as u32,
        day: calendar_day(date.local_secs() / 86_400) as u32,
        year: calendar_year(date.local_secs() / 86_400) as i32,
    }
}

proof fn lemma_date_in_range(date: MeetDate)
    requires
        date.wf(),
    ensures
        -262_144 <= calendar_year(date.local_secs() / 86_400) <= 262_143,
        1 <= calendar_month(date.local_secs() / 86_400) <= 12,
        1 <= calendar_day(date.local_secs() / 86_400) <= 31,
{
    let day = date.local_secs() / 86_400;
    law_every_day_has_a_date(day);
    lemma_years_ascend(calendar_year(day), -262_144);
    lemma_years_ascend(262_143, calendar_year(day));
}

/// The local date and time of a moment.
pub fn local_time(date: MeetDate) -> (r: LocalTime)
    requires
        date.wf(),
    ensures
        r == local_time_of(date),
        r.wf(),
{
    proof {
        lemma_date_in_range(date);
    }
    LocalTime {
        second: chrono_second(date.utc_secs, date.offset_secs),
        minute: chrono_minute(date.utc_secs, date.offset_secs),
        hour: chrono_hour(date.utc_secs, date.offset_secs),
        days_from_sunday: chrono_days_from_sunday(date.utc_secs, date.offset_secs),
        month: chrono_month(date.utc_secs, date.offset_secs),
        day: chrono_day(date.utc_secs, date.offset_secs),
        year: chrono_year(date.utc_secs, date.offset_secs),
    }
}

/// Whole milliseconds from `start_ns` to `now_ns`, both read from one clock
/// that counts nanoseconds; 0 if the start lies later, and never more than
/// `u32` holds.
pub open spec fn elapsed_ms_of(start_ns: u64, now_ns: u64) -> u32 {
    if now_ns < start_ns {
        0
    } else if (now_ns - start_ns) / 1_000_000 > u32::MAX {
        u32::MAX
    } else {
        ((now_ns - start_ns) / 1_000_000) as u32
    }
}

pub fn elapsed_ms(start_ns: u64, now_ns: u64) -> (r: u32)
    ensures
        r == elapsed_ms_of(start_ns, now_ns),
{
    let ms: u64 = now_ns.saturating_sub(start_ns) / 1_000_000;
    if ms > u32::MAX as u64 {
        u32::MAX
    } else {
        ms as u32
    }
}

/// Race time counts whole milliseconds from the start: as many as fit between
/// the two readings, none before the start, and no more than 32 bits hold.
pub proof fn law_elapsed_time(start_ns: u64, now_ns: u64)
    ensures
        ({
            let ms = elapsed_ms_of(start_ns, now_ns) as int;
            &&& now_ns < start_ns ==> ms == 0
            &&& now_ns >= start_ns && now_ns - start_ns < 0x1_0000_0000 * 1_000_000 ==> start_ns + ms
                * 1_000_000 <= now_ns < start_ns + (ms + 1) * 1_000_000
            &&& now_ns >= start_ns && now_ns - start_ns >= 0x1_0000_0000 * 1_000_000 ==> ms
                == 0xFFFF_FFFF
        }),
{
}

/// The year of a frame is the year itself from 0 to 65535, and 2000 otherwise.
pub proof fn law_year_stamp(year: int)
    ensures
        0 <= year <= 65_535 ==> year_stamp_of(year) == year,
        year < 0 || year > 65_535 ==> year_stamp_of(year) == 2000,
{
}

/// The local clock is the UTC clock moved by the offset: its time of day and its
/// date make up the same moment again, and seven days later the day of the week
/// is the same; 1970-01-01 was a Thursday.
pub proof fn law_local_time_is_the_moment(date: MeetDate)
    requires
        date.wf(),
    ensures
        ({
            let t = local_time_of(date);
            let day = year_start(t.year as int) + month_start(
                is_leap(t.year as int),
                t.month as int,
            ) + t.day - 1;
            &&& t.wf()
            &&& day * 86_400 + t.hour * 3600 + t.minute * 60 + t.second == date.utc_secs
                + date.offset_secs
            &&& (t.days_from_sunday - 4 - day) % 7 == 0
        }),
{
    let secs = date.local_secs();
    let day = secs / 86_400;
    lemma_date_in_range(date);
    law_every_day_has_a_date(day);
    assert(secs == day * 86_400 + secs / 3600 % 24 * 3600 + secs / 60 % 60 * 60 + secs % 60);
}

/// The Gregorian calendar: a year starts 365 days after the one before it, or
/// 366 after a leap year, 1970 starts the count, and the months have their
/// lengths.
pub proof fn law_calendar_lengths(year: int, month: int)
    requires
        1 <= month <= 12,
    ensures
        is_leap(year) <==> (year % 4 == 0 && year % 100 != 0) || year % 400 == 0,
        year_start(1970) == 0,
        year_start(year + 1) - year_start(year) == (if is_leap(year) {
            366int
        } else {
            365
        }),
        month_start(is_leap(year), 1) == 0,
        month_start(is_leap(year), month + 1) - month_start(is_leap(year), month) == (if month == 2 {
            if is_leap(year) {
                29int
            } else {
                28
            }
        } else if month == 4 || month == 6 || month == 9 || month == 11 {
            30
        } else {
            31
        }),
{
}

/// The year field of a moment is the year that the moment's day lies in.
pub proof fn law_year_of_a_moment(utc_secs: i64, year: int)
    requires
        0 <= year <= 65_535,
        year_start(year) * 86_400 <= utc_secs < year_start(year + 1) * 86_400,
    ensures
        year_stamp_at(utc_secs) == year,
{
    let day = utc_secs as int / 86_400;
    law_every_day_has_a_date(day);
    lemma_years_ascend(year, calendar_year(day));
    lemma_years_ascend(calendar_year(day), year);
}

} // verus!
