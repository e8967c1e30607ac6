use vstd::prelude::*;

use crate::text::{dec, pad2, push_dec, push_pad2, push_str, string_from_chars};
use chrono::{Datelike, FixedOffset, Local, NaiveDate, TimeDelta, TimeZone, Timelike};

verus! {

/// The earliest year the calendar handles.
pub const MIN_YEAR: i32 = -262143;

/// The latest year the calendar handles.
pub const MAX_YEAR: i32 = 262142;

/// A day of the proleptic Gregorian calendar.
#[derive(Debug, Clone, Copy, PartialEq, Eq, Structural)]
pub struct CivilDate {
    pub year: i32,
    pub month: u32,
    pub day: u32,
}

/// A reading of the local wall clock: the calendar day, the time of day, and the
/// offset from UTC, in seconds, that was in force when the reading was taken.
///
/// `before` orders readings by their wall-clock fields; `earlier` orders them by the
/// instant they stand for.
#[derive(Debug, Clone, Copy, PartialEq, Eq, Structural)]
pub struct LocalTime {
    pub date: CivilDate,
    pub hour: u32,
    pub minute: u32,
    pub second: u32,
    pub nanosecond: u32,
    pub offset_seconds: i32,
}

pub open spec fn is_leap_year(y: int) -> bool {
    (y % 4 == 0 && y % 100 != 0) || y % 400 == 0
}

pub open spec fn days_in_month(y: int, m: int) -> int {
    if m == 2 {
        if is_leap_year(y) {
            29
        } else {
            28
        }
    } else if m == 4 || m == 6 || m == 9 || m == 11 {
        30
    } else {
        31
    }
}

impl CivilDate {
    /// The date exists in the calendar and lies in the handled range of years.
    pub open spec fn wf(self) -> bool {
        &&& MIN_YEAR <= self.year <= MAX_YEAR
        &&& 1 <= self.month <= 12
        &&& 1 <= self.day <= days_in_month(self.year as int, self.month as int)
    }

    /// The first day of the handled range.
    pub open spec fn is_first(self) -> bool {
        self.year == MIN_YEAR && self.month == 1 && self.day == 1
    }

    /// The last day of the handled range.
    pub open spec fn is_last(self) -> bool {
        self.year == MAX_YEAR && self.month == 12 && self.day == 31
    }

    /// The day before.
    pub open spec fn spec_prev(self) -> CivilDate {
        if self.day > 1 {
            CivilDate { day: (self.day - 1) as u32, ..self }
        } else if self.month > 1 {
            CivilDate {
                year: self.year,
                month: (self.month - 1) as u32,
                day: days_in_month(self.year as int, self.month - 1) as u32,
            }
        } else {
            CivilDate { year: (self.year - 1) as i32, month: 12, day: 31 }
        }
    }

    /// The day after.
    pub open spec fn spec_next(self) -> CivilDate {
        if self.day < days_in_month(self.year as int, self.month as int) {
            CivilDate { day: (self.day + 1) as u32, ..self }
        } else if self.month < 12 {
            CivilDate { year: self.year, month: (self.month + 1) as u32, day: 1 }
        } else {
            CivilDate { year: (self.year + 1) as i32, month: 1, day: 1 }
        }
    }

    /// Strictly earlier in the calendar.
    pub open spec fn spec_before(self, other: CivilDate) -> bool {
        ||| self.year < other.year
        ||| self.year == other.year && self.month < other.month
        ||| self.year == other.year && self.month == other.month && self.day < other.day
    }

    /// `%Y-%m-%d`.
    pub open spec fn spec_text(self) -> Seq<char> {
        year_text(self.year as int) + seq!['-'] + pad2(self.month as nat) + seq!['-'] + pad2(
            self.day as nat,
        )
    }

    pub fn leap_year(year: i32) -> (b: bool)
        requires
            MIN_YEAR <= year <= MAX_YEAR,
        ensures
            b == is_leap_year(year as int),
    {
        // Shifting by a multiple of 400 years keeps the answer and makes the value non-negative.
        let y: u64 = (year as i64 + 400000) as u64;
        assert(y % 4 == (year as int) % 4 && y % 100 == (year as int) % 100 && y % 400 == (
        year as int) % 400) by {
            assert(y == year + 400 * 1000);
        }
        (y % 4 == 0 && y % 100 != 0) || y % 400 == 0
    }

    pub fn month_length(year: i32, month: u32) -> (d: u32)
        requires
            MIN_YEAR <= year <= MAX_YEAR,
        ensures
            d == days_in_month(year as int, month as int),
    {
        if month == 2 {
            if Self::leap_year(year) {
                29
            } else {
                28
            }
        } else if month == 4 || month == 6 || month == 9 || month == 11 {
            30
        } else {
            31
        }
    }

    /// The previous calendar day.
    pub fn prev(self) -> (d: CivilDate)
        requires
            self.wf(),
            !self.is_first(),
        ensures
            d == self.spec_prev(),
            d.wf(),
    {
        if self.day > 1 {
            CivilDate { day: self.day - 1, ..self }
        } else if self.month > 1 {
            CivilDate {
                year: self.year,
                month: self.month - 1,
                day: Self::month_length(self.year, self.month - 1),
            }
        } else {
            CivilDate { year: self.year - 1, month: 12, day: 31 }
        }
    }

    /// The next calendar day.
    pub fn next(self) -> (d: CivilDate)
        requires
            self.wf(),
            !self.is_last(),
        ensures
            d == self.spec_next(),
            d.wf(),
    {
        if self.day < Self::month_length(self.year, self.month) {
            CivilDate { day: self.day + 1, ..self }
        } else if self.month < 12 {
            CivilDate { year: self.year, month: self.month + 1, day: 1 }
        } else {
            CivilDate { year: self.year + 1, month: 1, day: 1 }
        }
    }

    /// Strictly earlier in the calendar.
    pub fn before(&self, other: &CivilDate) -> (b: bool)
        ensures
            b == self.spec_before(*other),
    {
        self.year < other.year || (self.year == other.year && self.month < other.month) || (
        self.year == other.year && self.month == other.month && self.day < other.day)
    }

    /// The date as `%Y-%m-%d` writes it.
    pub fn text(&self) -> (s: String)
        requires
            self.wf(),
        ensures
            s@ == self.spec_text(),
    {
        let mut out: Vec<char> = Vec::new();
        push_year(&mut out, self.year);
        out.push('-');
        push_pad2(&mut out, self.month as u64);
        out.push('-');
        push_pad2(&mut out, self.day as u64);
        assert(out@ =~= self.spec_text());
        string_from_chars(out.as_slice())
    }
}

/// `n` with at least four digits, zero padded.
pub open spec fn pad4(n: nat) -> Seq<char> {
    if n < 10 {
        seq!['0', '0', '0'] + dec(n)
    } else if n < 100 {
        seq!['0', '0'] + dec(n)
    } else if n < 1000 {
        seq!['0'] + dec(n)
    } else {
        dec(n)
    }
}

/// A year as `%Y` writes it: four digits, zero padded, with a sign outside 0..=9999.
pub open spec fn year_text(y: int) -> Seq<char> {
    if 0 <= y <= 9999 {
        pad4(y as nat)
    } else if y > 9999 {
        seq!['+'] + dec(y as nat)
    } else {
        seq!['-'] + pad4((-y) as nat)
    }
}

fn push_pad4(out: &mut Vec<char>, n: u64)
    ensures
        final(out)@ == old(out)@ + pad4(n as nat),
{
    if n < 10 {
        push_str(out, "000");
    } else if n < 100 {
        push_str(out, "00");
    } else if n < 1000 {
        push_str(out, "0");
    }
    proof {
        reveal_strlit("000");
        reveal_strlit("00");
        reveal_strlit("0");
    }
    let ghost mid = out@;
    push_dec(out, n);
    assert(final(out)@ =~= old(out)@ + pad4(n as nat));
}

fn push_year(out: &mut Vec<char>, y: i32)
    requires
        MIN_YEAR <= y <= MAX_YEAR,
    ensures
        final(out)@ == old(out)@ + year_text(y as int),
{
    if 0 <= y && y <= 9999 {
        push_pad4(out, y as u64);
    } else if y > 9999 {
        out.push('+');
        push_dec(out, y as u64);
        assert(final(out)@ =~= old(out)@ + year_text(y as int));
    } else {
        out.push('-');
        push_pad4(out, (-(y as i64)) as u64);
        assert(final(out)@ =~= old(out)@ + year_text(y as int));
    }
}

/// The start of the half hour that a reading falls in.
pub open spec fn spec_bucket_start(t: LocalTime) -> LocalTime {
    LocalTime {
        minute: if t.minute < 30 {
            0
        } else {
            30
        },
        second: 0,
        nanosecond: 0,
        ..t
    }
}

/// `%H:%M`.
pub open spec fn hm_text(t: LocalTime) -> Seq<char> {
    pad2(t.hour as nat) + seq![':'] + pad2(t.minute as nat)
}

/// `%H:%M:%S`.
pub open spec fn hms_text(t: LocalTime) -> Seq<char> {
    pad2(t.hour as nat) + seq![':'] + pad2(t.minute as nat) + seq![':'] + pad2(t.second as nat)
}

/// `%H-%M-%S`.
pub open spec fn hms_dashed_text(t: LocalTime) -> Seq<char> {
    pad2(t.hour as nat) + seq!['-'] + pad2(t.minute as nat) + seq!['-'] + pad2(t.second as nat)
}

/// Years added before counting days, so that every year an `i32` holds counts from zero:
/// a multiple of the 400-year cycle of the calendar.
pub const YEAR_SHIFT: i64 = 2_147_484_000;

/// The day's place in a count that goes up by one from each day to the next, with day 0
/// long before any year an `i32` holds (days from a civil date, over whole 400-year cycles).
pub open spec fn day_number(d: CivilDate) -> int {
    let y = d.year as int - (if d.month <= 2 { 1int } else { 0int }) + YEAR_SHIFT as int;
    let era = y / 400;
    let yoe = y % 400;
    let mp = if d.month > 2 { d.month as int - 3 } else { d.month as int + 9 };
    let doy = (153 * mp + 2) / 5 + d.day as int - 1;
    let doe = yoe * 365 + yoe / 4 - yoe / 100 + doy;
    era * 146097 + doe
}

/// The day's place in the count of `day_number`.
pub fn day_count(d: &CivilDate) -> (n: i128)
    ensures
        n == day_number(*d),
{
    let adjust: i128 = if d.month <= 2 { 1 } else { 0 };
    let y: i128 = d.year as i128 - adjust + YEAR_SHIFT as i128;
    assert(y >= 0);
    let era: i128 = y / 400;
    let yoe: i128 = y % 400;
    let mp: i128 = if d.month > 2 { d.month as i128 - 3 } else { d.month as i128 + 9 };
    let doy: i128 = (153 * mp + 2) / 5 + d.day as i128 - 1;
    let doe: i128 = yoe * 365 + yoe / 4 - yoe / 100 + doy;
    era * 146097 + doe
}

impl LocalTime {
    /// A real reading that the local time zone can shift by half an hour: an offset of
    /// less than a day, and a year at least two from either end of the handled range.
    pub open spec fn shiftable(self) -> bool {
        &&& self.wf()
        &&& -86400 < self.offset_seconds < 86400
        &&& MIN_YEAR + 2 <= self.date.year <= MAX_YEAR - 2
    }

    /// The same instant, to the nanosecond, whatever the offsets.
    pub open spec fn same_instant(self, other: LocalTime) -> bool {
        self.spec_instant() == other.spec_instant() && self.nanosecond == other.nanosecond
    }

    /// The instant the reading stands for, in whole seconds of the count of `day_number`
    /// on the UTC clock: the wall-clock seconds less the offset east of UTC.
    #[verifier::opaque]
    pub open spec fn spec_instant(self) -> int {
        day_number(self.date) * 86400 + self.hour * 3600 + self.minute * 60 + self.second
            - self.offset_seconds
    }

    /// Strictly earlier in time, whatever the offsets: by instant, then by the fraction of
    /// the second (a leap second runs past one).
    pub open spec fn spec_earlier(self, other: LocalTime) -> bool {
        ||| self.spec_instant() < other.spec_instant()
        ||| self.spec_instant() == other.spec_instant() && self.nanosecond < other.nanosecond
    }

    /// Strictly earlier in time, whatever the offsets.
    pub fn earlier(&self, other: &LocalTime) -> (b: bool)
        ensures
            b == self.spec_earlier(*other),
    {
        let a: i128 = day_count(&self.date) * 86400 + self.hour as i128 * 3600 + self.minute as i128
            * 60 + self.second as i128 - self.offset_seconds as i128;
        let c: i128 = day_count(&other.date) * 86400 + other.hour as i128 * 3600 + other.minute as i128
            * 60 + other.second as i128 - other.offset_seconds as i128;
        proof {
            reveal(LocalTime::spec_instant);
        }
        a < c || (a == c && self.nanosecond < other.nanosecond)
    }

    /// A reading of a real clock: a calendar day, `0..24` hours, `0..60` minutes and
    /// seconds, and a nanosecond count below two seconds (leap seconds run past one).
    pub open spec fn wf(self) -> bool {
        &&& self.date.wf()
        &&& self.hour < 24
        &&& self.minute < 60
        &&& self.second < 60
        &&& self.nanosecond < 2_000_000_000
    }

    /// The reading lies on a half-hour boundary.
    pub open spec fn on_half_hour(self) -> bool {
        (self.minute == 0 || self.minute == 30) && self.second == 0 && self.nanosecond == 0
    }

    /// Strictly earlier on the wall clock.
    pub open spec fn spec_before(self, other: LocalTime) -> bool {
        ||| self.date.spec_before(other.date)
        ||| self.date == other.date && self.hour < other.hour
        ||| self.date == other.date && self.hour == other.hour && self.minute < other.minute
        ||| self.date == other.date && self.hour == other.hour && self.minute == other.minute
            && self.second < other.second
        ||| self.date == other.date && self.hour == other.hour && self.minute == other.minute
            && self.second == other.second && self.nanosecond < other.nanosecond
    }

    /// The same wall-clock reading, whatever the offsets.
    pub open spec fn same_reading(self, other: LocalTime) -> bool {
        &&& self.date == other.date
        &&& self.hour == other.hour
        &&& self.minute == other.minute
        &&& self.second == other.second
        &&& self.nanosecond == other.nanosecond
    }

    /// Strictly earlier on the wall clock.
    pub fn before(&self, other: &LocalTime) -> (b: bool)
        ensures
            b == self.spec_before(*other),
    {
        if self.date.before(&other.date) {
            return true;
        }
        if self.date != other.date {
            return false;
        }
        self.hour < other.hour || (self.hour == other.hour && self.minute < other.minute) || (
        self.hour == other.hour && self.minute == other.minute && self.second < other.second) || (
        self.hour == other.hour && self.minute == other.minute && self.second == other.second
            && self.nanosecond < other.nanosecond)
    }

    /// The same wall-clock reading, whatever the offsets.
    pub fn same_reading_as(&self, other: &LocalTime) -> (b: bool)
        ensures
            b == self.same_reading(*other),
    {
        self.date == other.date && self.hour == other.hour && self.minute == other.minute
            && self.second == other.second && self.nanosecond == other.nanosecond
    }

    /// The time of day as `%H:%M` writes it.
    pub fn hm(&self) -> (s: String)
        requires
            self.wf(),
        ensures
            s@ == hm_text(*self),
    {
        let mut out: Vec<char> = Vec::new();
        push_pad2(&mut out, self.hour as u64);
        out.push(':');
        push_pad2(&mut out, self.minute as u64);
        assert(out@ =~= hm_text(*self));
        string_from_chars(out.as_slice())
    }

    /// The time of day as `%H:%M:%S` writes it.
    pub fn hms(&self) -> (s: String)
        requires
            self.wf(),
        ensures
            s@ == hms_text(*self),
    {
        let mut out: Vec<char> = Vec::new();
        push_pad2(&mut out, self.hour as u64);
        out.push(':');
        push_pad2(&mut out, self.minute as u64);
        out.push(':');
        push_pad2(&mut out, self.second as u64);
        assert(out@ =~= hms_text(*self));
        string_from_chars(out.as_slice())
    }

    /// The time of day as `%H-%M-%S` writes it.
    pub fn hms_dashed(&self) -> (s: String)
        requires
            self.wf(),
        ensures
            s@ == hms_dashed_text(*self),
    {
        let mut out: Vec<char> = Vec::new();
        push_pad2(&mut out, self.hour as u64);
        out.push('-');
        push_pad2(&mut out, self.minute as u64);
        out.push('-');
        push_pad2(&mut out, self.second as u64);
        assert(out@ =~= hms_dashed_text(*self));
        string_from_chars(out.as_slice())
    }
}


/// Wall-clock order is transitive.
pub proof fn lemma_before_transitive(a: LocalTime, b: LocalTime, c: LocalTime)
    requires
        a.spec_before(b),
        b.spec_before(c),
    ensures
        a.spec_before(c),
{
}

/// Of two readings, one is earlier or they are the same reading.
pub proof fn lemma_before_trichotomy(a: LocalTime, b: LocalTime)
    ensures
        a.spec_before(b) || b.spec_before(a) || a.same_reading(b),
{
}

/// Order depends on the wall-clock reading alone.
pub proof fn lemma_before_same_reading(a: LocalTime, b: LocalTime, c: LocalTime)
    requires
        a.same_reading(b),
    ensures
        a.spec_before(c) == b.spec_before(c),
        c.spec_before(a) == c.spec_before(b),
{
}

/// `later` is a real reading thirty minutes after `t`, whatever offset is in force then.
pub open spec fn later_by_half_hour(t: LocalTime, later: LocalTime) -> bool {
    &&& later.wf()
    &&& later.spec_instant() == t.spec_instant() + 1800
    &&& later.nanosecond == t.nanosecond
}

/// chrono's `DateTime<Local> - TimeDelta::minutes(30)`, on the reading taken as a
/// `DateTime<Local>` (through `NaiveDate::from_ymd_opt`, `and_hms_nano_opt` and
/// `FixedOffset::east_opt(..).from_local_datetime`, which accept a shiftable reading with
/// less than a second of nanoseconds). The offset of the result is the one the machine's
/// time zone has in force at the new instant, so only the instant is stated: thirty minutes
/// earlier, with the same nanoseconds. chrono panics, whatever the input, only when the
/// machine's time-zone data cannot name an offset.
#[verifier::external_body]
pub fn half_hour_earlier(t: LocalTime) -> (r: LocalTime)
    requires
        t.shiftable(),
        t.nanosecond < 1_000_000_000,
    ensures
        later_by_half_hour(r, t),
        r.wf(),
{
    let n = NaiveDate::from_ymd_opt(t.date.year, t.date.month, t.date.day).unwrap();
    let n = n.and_hms_nano_opt(t.hour, t.minute, t.second, t.nanosecond).unwrap();
    let z = FixedOffset::east_opt(t.offset_seconds).unwrap().from_local_datetime(&n).unwrap();
    let r = z.with_timezone(&Local) - TimeDelta::minutes(30);
    let date = CivilDate { year: r.year(), month: r.month(), day: r.day() };
    let offset_seconds = r.offset().local_minus_utc();
    LocalTime { date, hour: r.hour(), minute: r.minute(), second: r.second(), nanosecond: r.nanosecond(), offset_seconds }
}

/// chrono's `DateTime<Local> + TimeDelta::minutes(30)`, on the reading taken as a
/// `DateTime<Local>` as for `half_hour_earlier`. Only the instant is stated: thirty minutes
/// later, with the same nanoseconds; the offset is the machine time zone's.
#[verifier::external_body]
pub fn half_hour_later(t: LocalTime) -> (r: LocalTime)
    requires
        t.shiftable(),
        t.nanosecond < 1_000_000_000,
    ensures
        later_by_half_hour(t, r),
{
    let n = NaiveDate::from_ymd_opt(t.date.year, t.date.month, t.date.day).unwrap();
    let n = n.and_hms_nano_opt(t.hour, t.minute, t.second, t.nanosecond).unwrap();
    let z = FixedOffset::east_opt(t.offset_seconds).unwrap().from_local_datetime(&n).unwrap();
    let r = z.with_timezone(&Local) + TimeDelta::minutes(30);
    let date = CivilDate { year: r.year(), month: r.month(), day: r.day() };
    let offset_seconds = r.offset().local_minus_utc();
    LocalTime { date, hour: r.hour(), minute: r.minute(), second: r.second(), nanosecond: r.nanosecond(), offset_seconds }
}

} // verus!
