//! Calendar days and inclusive day ranges.
//!
//! A day is modelled as its number of days since 1970-01-01, so that all
//! range arithmetic is plain integer arithmetic. Conversions between a
//! day number and a calendar date (year, month, day) are delegated to
//! the `chrono` crate through trusted wrappers; the supported calendar
//! span is year 0 through year 9999.

use vstd::prelude::*;

verus! {

/// Day number of 0000-01-01 (proleptic Gregorian).
pub const MIN_DAY_NUM: i64 = -719_528;

/// Day number of 9999-12-31.
pub const MAX_DAY_NUM: i64 = 2_932_896;

pub const MS_PER_DAY: i64 = 86_400_000;

/// Milliseconds from midnight to 23:59:59.000 of the same day.
pub const LAST_SECOND_MS: i64 = 86_399_000;

pub open spec fn day_in_range(d: int) -> bool {
    MIN_DAY_NUM <= d <= MAX_DAY_NUM
}

pub open spec fn is_leap_year(y: int) -> bool {
    (y % 4 == 0 && y % 100 != 0) || y % 400 == 0
}

pub open spec fn days_in_month(y: int, m: int) -> int {
    if m == 2 {
        if is_leap_year(y) {
            29
        } else {
            28
        }
    } else if m == 4 || m == 6 || m == 9 || m == 11 {
        30
    } else {
        31
    }
}

/// The calendar dates this library accepts: proleptic Gregorian,
/// year 0 through 9999.
pub open spec fn valid_ymd(y: int, m: int, d: int) -> bool {
    0 <= y <= 9999 && 1 <= m <= 12 && 1 <= d <= days_in_month(y, m)
}

/// Day number (days since 1970-01-01) of the calendar date (y, m, d),
/// as the `chrono` crate computes it.
pub uninterp spec fn epoch_day_of(y: int, m: int, d: int) -> int;

/// The "YYYY-MM-DD" rendering of the given day number, as the `chrono`
/// crate renders it.
pub uninterp spec fn ymd_str_of(day: int) -> Seq<char>;

/// Relies on `chrono::NaiveDate::from_ymd_opt`, which returns a date
/// exactly for the (y, m, d) triples valid in the proleptic Gregorian
/// calendar, and on day subtraction, which for dates between year 0 and
/// year 9999 yields a day count between those of 0000-01-01 and
/// 9999-12-31.
#[verifier::external_body]
fn chrono_ymd_to_epoch_day(y: i32, m: u32, d: u32) -> (r: Option<i64>)
    requires
        0 <= y <= 9999,
    ensures
        r is Some <==> valid_ymd(y as int, m as int, d as int),
        r is Some ==> r->Some_0 == epoch_day_of(y as int, m as int, d as int),
        r is Some ==> day_in_range(r->Some_0 as int),
{
    let date = chrono::NaiveDate::from_ymd_opt(y, m, d)?;
    let epoch = chrono::NaiveDate::from_ymd_opt(1970, 1, 1)?;
    Some(date.signed_duration_since(epoch).num_days())
}

/// Relies on `chrono::NaiveDate`'s `Display`, which renders a date in
/// the ISO 8601 format "YYYY-MM-DD", and on day addition, which cannot
/// fail for day numbers between those of 0000-01-01 and 9999-12-31.
#[verifier::external_body]
fn chrono_format_epoch_day(day: i64) -> (r: String)
    requires
        day_in_range(day as int),
    ensures
        r@ == ymd_str_of(day as int),
{
    let epoch = chrono::NaiveDate::from_ymd_opt(1970, 1, 1).unwrap();
    let date = epoch.checked_add_signed(chrono::TimeDelta::days(day)).unwrap();
    date.format("%Y-%m-%d").to_string()
}

/// A calendar day, stored as its day number since 1970-01-01.
#[derive(Clone, Copy, PartialEq, Eq, Structural, Debug, Hash)]
pub struct Day {
    num: i64,
}

impl View for Day {
    type V = int;

    closed spec fn view(&self) -> int {
        self.num as int
    }
}

impl Day {
    pub open spec fn wf(&self) -> bool {
        day_in_range(self@)
    }

    /// Build a day from a calendar date; `None` exactly when the triple
    /// is not a valid date of years 0 through 9999.
    pub fn from_ymd(y: i32, m: u32, d: u32) -> (r: Option<Day>)
        ensures
            r is Some <==> valid_ymd(y as int, m as int, d as int),
            r is Some ==> r->Some_0@ == epoch_day_of(y as int, m as int, d as int),
            r is Some ==> r->Some_0.wf(),
    {
        if y < 0 || y > 9999 {
            return None;
        }
        match chrono_ymd_to_epoch_day(y, m, d) {
            Some(n) => Some(Day { num: n }),
            None => None,
        }
    }

    /// Build a day from its day number; `None` exactly when the number
    /// falls outside years 0 through 9999.
    pub fn from_epoch_days(n: i64) -> (r: Option<Day>)
        ensures
            r is Some <==> day_in_range(n as int),
            r is Some ==> r->Some_0@ == n as int && r->Some_0.wf(),
    {
        if MIN_DAY_NUM <= n && n <= MAX_DAY_NUM {
            Some(Day { num: n })
        } else {
            None
        }
    }

    /// Build a day from a number already known to be in range.
    pub fn from_num(n: i64) -> (r: Day)
        requires
            day_in_range(n as int),
        ensures
            r@ == n as int,
            r.wf(),
    {
        Day { num: n }
    }

    pub fn epoch_days(&self) -> (r: i64)
        ensures
            r as int == self@,
    {
        self.num
    }

    pub fn le(&self, other: &Day) -> (r: bool)
        ensures
            r == (self@ <= other@),
    {
        self.num <= other.num
    }

    pub fn lt(&self, other: &Day) -> (r: bool)
        ensures
            r == (self@ < other@),
    {
        self.num < other.num
    }

    /// Timestamp (ms since epoch) of this day's midnight.
    pub fn start_of_day_ts(&self) -> (r: i64)
        requires
            self.wf(),
        ensures
            r as int == start_of_day_ms(self@),
    {
        self.num * MS_PER_DAY
    }

    /// Timestamp (ms since epoch) of this day's 23:59:59.000.
    pub fn end_of_day_ts(&self) -> (r: i64)
        requires
            self.wf(),
        ensures
            r as int == end_of_day_ms(self@),
    {
        self.num * MS_PER_DAY + LAST_SECOND_MS
    }

    /// The "YYYY-MM-DD" rendering of this day.
    pub fn to_iso_string(&self) -> (r: String)
        requires
            self.wf(),
        ensures
            r@ == ymd_str_of(self@),
    {
        chrono_format_epoch_day(self.num)
    }
}

/// The day value with the given day number, for use in specifications.
pub closed spec fn day_of_num(d: int) -> Day {
    Day { num: d as i64 }
}

pub proof fn lemma_day_of_num(d: int)
    requires
        day_in_range(d),
    ensures
        day_of_num(d)@ == d,
        day_of_num(d).wf(),
{
}

/// Two days with the same day number are the same day.
pub proof fn lemma_day_view_injective(a: Day, b: Day)
    requires
        a@ == b@,
    ensures
        a == b,
{
}

/// The range with the given day numbers as bounds, for use in
/// specifications.
pub closed spec fn spec_range(s: int, e: int) -> DateRange {
    DateRange { start: day_of_num(s), end: day_of_num(e) }
}

pub proof fn lemma_spec_range(s: int, e: int)
    requires
        day_in_range(s),
        day_in_range(e),
    ensures
        spec_range(s, e).start_spec()@ == s,
        spec_range(s, e).end_spec()@ == e,
        s <= e ==> spec_range(s, e).wf(),
{
}

/// A range is determined by its bounds' day numbers.
pub proof fn lemma_range_view_injective(a: DateRange, b: DateRange)
    requires
        a.start_spec()@ == b.start_spec()@,
        a.end_spec()@ == b.end_spec()@,
    ensures
        a == b,
{
}

pub open spec fn start_of_day_ms(d: int) -> int {
    d * 86_400_000
}

pub open spec fn end_of_day_ms(d: int) -> int {
    d * 86_400_000 + 86_399_000
}

/// The day a timestamp (ms since epoch) falls within; `None` exactly
/// when that day lies outside years 0 through 9999.
pub fn day_of_timestamp_ms(ts: i64) -> (r: Option<Day>)
    ensures
        r is Some <==> day_in_range(ts as int / 86_400_000),
        r is Some ==> r->Some_0@ == ts as int / 86_400_000 && r->Some_0.wf(),
{
    match ts.checked_div_euclid(MS_PER_DAY) {
        Some(n) => Day::from_epoch_days(n),
        None => None,
    }
}

#[derive(Clone, Copy, PartialEq, Eq, Structural, Debug)]
pub enum DateRangeError {
    StartAfterEnd,
}

/// An inclusive range of calendar days; `start <= end` always holds.
#[derive(Clone, Copy, PartialEq, Eq, Structural, Debug)]
pub struct DateRange {
    start: Day,
    end: Day,
}

impl DateRange {
    pub closed spec fn start_spec(&self) -> Day {
        self.start
    }

    pub closed spec fn end_spec(&self) -> Day {
        self.end
    }

    pub open spec fn wf(&self) -> bool {
        self.start_spec().wf() && self.end_spec().wf() && self.start_spec()@
            <= self.end_spec()@
    }

    /// A range contains exactly the days between its bounds.
    pub open spec fn spec_contains(&self, d: int) -> bool {
        self.start_spec()@ <= d <= self.end_spec()@
    }

    pub fn new(start: Day, end: Day) -> (r: Result<DateRange, DateRangeError>)
        requires
            start.wf(),
            end.wf(),
        ensures
            (r matches Ok(dr)) <==> start@ <= end@,
            r matches Ok(dr) ==> dr.start_spec() == start && dr.end_spec() == end && dr.wf(),
            r matches Err(e) ==> e == DateRangeError::StartAfterEnd && start@ > end@,
    {
        if start.le(&end) {
            Ok(DateRange { start, end })
        } else {
            Err(DateRangeError::StartAfterEnd)
        }
    }

    pub fn single_day(date: Day) -> (r: DateRange)
        requires
            date.wf(),
        ensures
            r.start_spec() == date,
            r.end_spec() == date,
            r.wf(),
    {
        DateRange { start: date, end: date }
    }

    pub fn start(&self) -> (r: Day)
        ensures
            r == self.start_spec(),
    {
        self.start
    }

    pub fn end(&self) -> (r: Day)
        ensures
            r == self.end_spec(),
    {
        self.end
    }

    /// The number of days in the range, bounds included.
    pub fn days(&self) -> (r: u32)
        requires
            self.wf(),
        ensures
            r as int == self.end_spec()@ - self.start_spec()@ + 1,
    {
        (self.end.num - self.start.num) as u32 + 1
    }

    pub fn contains(&self, date: Day) -> (r: bool)
        ensures
            r == self.spec_contains(date@),
    {
        self.start.le(&date) && date.le(&self.end)
    }

    pub fn overlaps(&self, other: &DateRange) -> (r: bool)
        ensures
            r == (self.start_spec()@ <= other.end_spec()@ && self.end_spec()@
                >= other.start_spec()@),
    {
        self.start.le(&other.end) && other.start.le(&self.end)
    }

    /// The ordered sequence of single-day ranges covering this range:
    /// exactly `end - start + 1` items, the i-th holding day
    /// `start + i`.
    pub fn split_by_days(self) -> (r: Vec<DateRange>)
        requires
            self.wf(),
        ensures
            r@.len() == self.end_spec()@ - self.start_spec()@ + 1,
            forall|i: int|
                0 <= i < r@.len() ==> {
                    &&& (#[trigger] r@[i]).start_spec()@ == self.start_spec()@ + i
                    &&& r@[i].end_spec() == r@[i].start_spec()
                    &&& r@[i].wf()
                },
    {
        let mut result: Vec<DateRange> = Vec::new();
        let mut n: i64 = self.start.num;

        while n <= self.end.num
            invariant
                self.wf(),
                self.start_spec()@ <= n as int <= self.end_spec()@ + 1,
                result@.len() == n as int - self.start_spec()@,
                forall|i: int|
                    0 <= i < result@.len() ==> {
                        &&& (#[trigger] result@[i]).start_spec()@ == self.start_spec()@ + i
                        &&& result@[i].end_spec() == result@[i].start_spec()
                        &&& result@[i].wf()
                    },
            decreases self.end_spec()@ + 1 - n as int,
        {
            let d = Day { num: n };
            result.push(DateRange { start: d, end: d });
            n = n + 1;
        }
        result
    }
}

} // verus!
