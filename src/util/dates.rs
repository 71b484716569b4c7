//! Calendar rules on civil dates.
//!
//! A civil date is held as its day number in the proleptic Gregorian calendar,
//! counted as `chrono` does: 1 January of year 1 is day 1.  Instants are whole
//! seconds since the Unix epoch, in UTC.
//!
//! Every operation saturates: where a result would not exist or would leave
//! the supported range, the last supported day is returned instead.
use chrono::{Datelike, NaiveDate};
use vstd::prelude::*;
use crate::types::Weekday;

verus! {

/// First supported day number (1 January of year -262143).
pub const MIN_DAY: i32 = -95_746_129;

/// Last supported day number (31 December of year 262142).
pub const MAX_DAY: i32 = 95_745_399;

/// Day number of 1 January 1970, the Unix epoch.
pub const EPOCH_DAY: i32 = 719_163;

pub const SECS_PER_DAY: i64 = 86_400;

/// First instant of `MIN_DAY`.
pub const MIN_INSTANT: i64 = -8_334_601_228_800;

/// Last instant of `MAX_DAY`.
pub const MAX_INSTANT: i64 = 8_210_266_876_799;

/// `(year, month, day of month)` of a supported day number.
pub uninterp spec fn civil_of(day: int) -> (int, int, int);

/// Day number of a calendar date, if that date exists and is supported.
pub uninterp spec fn day_of_civil(year: int, month: int, dom: int) -> Option<int>;

/// The day `months` months after `day`, on the last day of the month where the
/// day of the month does not exist.
pub uninterp spec fn add_months_of(day: int, months: int) -> Option<int>;

/// The day `months` months before `day`, on the last day of the month where
/// the day of the month does not exist.
pub uninterp spec fn sub_months_of(day: int, months: int) -> Option<int>;

pub open spec fn in_range(day: int) -> bool {
    MIN_DAY <= day <= MAX_DAY
}

pub open spec fn year_of(day: int) -> int {
    civil_of(day).0
}

pub open spec fn month_of(day: int) -> int {
    civil_of(day).1
}

pub open spec fn dom_of(day: int) -> int {
    civil_of(day).2
}

/// Day of the week, 0 for Monday (day 1 was a Monday).
pub open spec fn weekday_index(day: int) -> int {
    (day - 1) % 7
}

/// Number of days in the month, as the largest day of the month that exists.
pub open spec fn month_len(year: int, month: int) -> int {
    if day_of_civil(year, month, 31) is Some {
        31
    } else if day_of_civil(year, month, 30) is Some {
        30
    } else if day_of_civil(year, month, 29) is Some {
        29
    } else {
        28
    }
}

/// A day number, or `MAX_DAY` where there is none.
pub open spec fn or_max(d: Option<int>) -> int {
    match d {
        Some(n) => n,
        None => MAX_DAY as int,
    }
}

pub open spec fn min_int(a: int, b: int) -> int {
    if a <= b {
        a
    } else {
        b
    }
}

pub open spec fn with_dom_spec(day: int, dom: int) -> int {
    let (y, m, _) = civil_of(day);
    or_max(day_of_civil(y, m, min_int(dom, month_len(y, m))))
}

pub open spec fn with_month_dom_spec(day: int, month: int, dom: int) -> int {
    let y = year_of(day);
    or_max(day_of_civil(y, month, min_int(dom, month_len(y, month))))
}

pub open spec fn add_days_spec(day: int, n: int) -> int {
    if day + n > MAX_DAY {
        MAX_DAY as int
    } else {
        day + n
    }
}

pub open spec fn sub_days_spec(day: int, n: int) -> int {
    if day - n < MIN_DAY {
        MIN_DAY as int
    } else {
        day - n
    }
}

/// Days forward from `day` to the next day of the week `dow` (0 if `day` is
/// one).
pub open spec fn days_to_dow(day: int, dow: Weekday) -> int {
    (dow.index() - weekday_index(day)) % 7
}

/// Days back from `day` to the previous day of the week `dow` (0 if `day` is
/// one).
pub open spec fn days_since_dow(day: int, dow: Weekday) -> int {
    (weekday_index(day) - dow.index()) % 7
}

pub open spec fn first_of_month_spec(day: int) -> int {
    if day - (dom_of(day) - 1) < MIN_DAY {
        MIN_DAY as int
    } else {
        day - (dom_of(day) - 1)
    }
}

/// The first instant of a day.
pub open spec fn day_start_spec(day: int) -> int {
    (day - EPOCH_DAY) * SECS_PER_DAY
}

/// The day an instant falls on, limited to the supported range.
pub open spec fn day_of_instant_spec(t: int) -> int {
    let d = t / (SECS_PER_DAY as int) + EPOCH_DAY;
    if d < MIN_DAY {
        MIN_DAY as int
    } else if d > MAX_DAY {
        MAX_DAY as int
    } else {
        d
    }
}

/// Relies on `NaiveDate::from_num_days_from_ce_opt` and the `Datelike`
/// accessors `year`, `month` and `day`: the calendar date of a supported day
/// number, with a month in 1..=12 and a day of the month in 1..=31.
#[verifier::external_body]
fn civil(day: i32) -> (r: (i32, u32, u32))
    requires
        in_range(day as int),
    ensures
        (r.0 as int, r.1 as int, r.2 as int) == civil_of(day as int),
        1 <= r.1 <= 12,
        1 <= r.2 <= 31,
{
    let date = NaiveDate::from_num_days_from_ce_opt(day).unwrap();
    (date.year(), date.month(), date.day())
}

/// Relies on `NaiveDate::from_ymd_opt` and `Datelike::num_days_from_ce`: the
/// day number of a calendar date, `None` where the date does not exist or is
/// out of range.
#[verifier::external_body]
fn civil_day(year: i32, month: u32, dom: u32) -> (r: Option<i32>)
    ensures
        match r {
            Some(n) => day_of_civil(year as int, month as int, dom as int) == Some(n as int)
                && in_range(n as int),
            None => day_of_civil(year as int, month as int, dom as int) is None,
        },
{
    match NaiveDate::from_ymd_opt(year, month, dom) {
        Some(date) => Some(date.num_days_from_ce()),
        None => None,
    }
}

/// Relies on `NaiveDate::checked_add_months`: the same day of the month
/// `months` months later (the month's last day where it does not exist),
/// `None` when out of range.
#[verifier::external_body]
fn checked_add_months(day: i32, months: u32) -> (r: Option<i32>)
    requires
        in_range(day as int),
    ensures
        match r {
            Some(n) => add_months_of(day as int, months as int) == Some(n as int) && in_range(
                n as int,
            ),
            None => add_months_of(day as int, months as int) is None,
        },
{
    let date = NaiveDate::from_num_days_from_ce_opt(day).unwrap();
    match date.checked_add_months(chrono::Months::new(months)) {
        Some(d) => Some(d.num_days_from_ce()),
        None => None,
    }
}

/// Relies on `NaiveDate::checked_sub_months`: the same day of the month
/// `months` months earlier (the month's last day where it does not exist),
/// `None` when out of range.
#[verifier::external_body]
fn checked_sub_months(day: i32, months: u32) -> (r: Option<i32>)
    requires
        in_range(day as int),
    ensures
        match r {
            Some(n) => sub_months_of(day as int, months as int) == Some(n as int) && in_range(
                n as int,
            ),
            None => sub_months_of(day as int, months as int) is None,
        },
{
    let date = NaiveDate::from_num_days_from_ce_opt(day).unwrap();
    match date.checked_sub_months(chrono::Months::new(months)) {
        Some(d) => Some(d.num_days_from_ce()),
        None => None,
    }
}

/// Whether a day number is in the supported range.
pub fn day_in_range(day: i32) -> (r: bool)
    ensures
        r == in_range(day as int),
{
    MIN_DAY <= day && day <= MAX_DAY
}

/// Day number of a calendar date, `None` where the date does not exist or is
/// out of the supported range.
pub fn day_from_ymd(year: i32, month: u32, dom: u32) -> (r: Option<i32>)
    ensures
        match r {
            Some(n) => day_of_civil(year as int, month as int, dom as int) == Some(n as int)
                && in_range(n as int),
            None => day_of_civil(year as int, month as int, dom as int) is None,
        },
{
    civil_day(year, month, dom)
}

/// `(year, month, day of month)` of a day number.
pub fn ymd(day: i32) -> (r: (i32, u32, u32))
    requires
        in_range(day as int),
    ensures
        (r.0 as int, r.1 as int, r.2 as int) == civil_of(day as int),
        1 <= r.1 <= 12,
        1 <= r.2 <= 31,
{
    civil(day)
}

/// The year of a day number (negative years are BCE).
pub fn year_of_date(day: i32) -> (r: i32)
    requires
        in_range(day as int),
    ensures
        r as int == year_of(day as int),
{
    civil(day).0
}

/// Day of the week of a day number.
pub fn weekday(day: i32) -> (r: Weekday)
    requires
        in_range(day as int),
    ensures
        r.index() == weekday_index(day as int),
{
    let shifted: i64 = day as i64 - 1 + 700_000_000;
    let i = (shifted % 7) as u8;
    assert((day as int - 1 + 700_000_000) % 7 == (day as int - 1) % 7) by (nonlinear_arith);
    Weekday::from_monday0(i)
}

/// Number of days in the month that `day` falls in.
pub fn days_in_month(day: i32) -> (r: u8)
    requires
        in_range(day as int),
    ensures
        r as int == month_len(year_of(day as int), month_of(day as int)),
        28 <= r <= 31,
{
    let (y, m, _) = civil(day);
    month_len_of(y, m)
}

/// Number of days in `month` of `year`.
fn month_len_of(year: i32, month: u32) -> (r: u8)
    ensures
        r as int == month_len(year as int, month as int),
        28 <= r <= 31,
{
    if civil_day(year, month, 31).is_some() {
        31
    } else if civil_day(year, month, 30).is_some() {
        30
    } else if civil_day(year, month, 29).is_some() {
        29
    } else {
        28
    }
}

fn or_max_day(d: Option<i32>) -> (r: i32)
    requires
        d matches Some(n) ==> in_range(n as int),
    ensures
        r as int == or_max(
            match d {
                Some(n) => Some(n as int),
                None => None,
            },
        ),
        in_range(r as int),
{
    match d {
        Some(n) => n,
        None => MAX_DAY,
    }
}

/// `day` with the day of the month set to `dom`, or to the last day of the
/// month where `dom` is greater.
pub fn with_dom_saturating(day: i32, dom: u8) -> (r: i32)
    requires
        in_range(day as int),
    ensures
        r as int == with_dom_spec(day as int, dom as int),
        in_range(r as int),
{
    let (y, m, _) = civil(day);
    let len = month_len_of(y, m);
    let target = if dom <= len {
        dom
    } else {
        len
    };
    or_max_day(civil_day(y, m, target as u32))
}

/// `day` with the month set to `month` and the day of the month set to `dom`,
/// or to the last day of that month where `dom` is greater.
pub fn with_month_dom_saturating(day: i32, month: u8, dom: u8) -> (r: i32)
    requires
        in_range(day as int),
    ensures
        r as int == with_month_dom_spec(day as int, month as int, dom as int),
        in_range(r as int),
{
    let y = civil(day).0;
    let len = month_len_of(y, month as u32);
    let target = if dom <= len {
        dom
    } else {
        len
    };
    or_max_day(civil_day(y, month as u32, target as u32))
}

/// 1 January of `year`.
pub fn first_of_year(year: i32) -> (r: i32)
    ensures
        r as int == or_max(day_of_civil(year as int, 1, 1)),
        in_range(r as int),
{
    match civil_day(year, 1, 1) {
        Some(n) => n,
        None => MAX_DAY,
    }
}

/// 1 January of `year`, or `MAX_DAY` where there is none.
pub open spec fn first_of_year_spec(year: int) -> int {
    if i32::MIN <= year <= i32::MAX {
        or_max(day_of_civil(year, 1, 1))
    } else {
        MAX_DAY as int
    }
}

/// 1 January of `year`, or `MAX_DAY` where there is none.
pub fn first_of_year_wide(year: i64) -> (r: i32)
    ensures
        r as int == first_of_year_spec(year as int),
        in_range(r as int),
{
    if year < i32::MIN as i64 || year > i32::MAX as i64 {
        MAX_DAY
    } else {
        first_of_year(year as i32)
    }
}

/// The first day of the month that `day` falls in.
pub fn first_of_month(day: i32) -> (r: i32)
    requires
        in_range(day as int),
    ensures
        r as int == first_of_month_spec(day as int),
        in_range(r as int),
        r <= day,
        day - r <= 30,
{
    let d = civil(day).2;
    if (day as i64) - (d as i64 - 1) < MIN_DAY as i64 {
        MIN_DAY
    } else {
        day - (d as i32 - 1)
    }
}

/// The day `n` days after `day`.
pub fn add_days(day: i32, n: u64) -> (r: i32)
    requires
        in_range(day as int),
    ensures
        r as int == add_days_spec(day as int, n as int),
        in_range(r as int),
        r >= day,
{
    if n > (MAX_DAY as i64 - day as i64) as u64 {
        MAX_DAY
    } else {
        (day as i64 + n as i64) as i32
    }
}

/// The day `n` days before `day`.
pub fn sub_days(day: i32, n: u64) -> (r: i32)
    requires
        in_range(day as int),
    ensures
        r as int == sub_days_spec(day as int, n as int),
        in_range(r as int),
        r <= day,
{
    if n > (day as i64 - MIN_DAY as i64) as u64 {
        MIN_DAY
    } else {
        (day as i64 - n as i64) as i32
    }
}

/// The first day on or after `day` which falls on `dow`.
pub fn forwards_to_dow(day: i32, dow: Weekday) -> (r: i32)
    requires
        in_range(day as int),
    ensures
        r as int == add_days_spec(day as int, days_to_dow(day as int, dow)),
        in_range(r as int),
        r >= day,
{
    let wd = weekday(day).num_from_monday0();
    let target = dow.num_from_monday0();
    let diff: u8 = (target + 7 - wd) % 7;
    assert(diff as int == days_to_dow(day as int, dow)) by {
        assert((target + 7 - wd) % 7 == (target - wd) % 7) by (nonlinear_arith);
    }
    add_days(day, diff as u64)
}

/// The last day on or before `day` which falls on `dow`.
pub fn backwards_to_dow(day: i32, dow: Weekday) -> (r: i32)
    requires
        in_range(day as int),
    ensures
        r as int == sub_days_spec(day as int, days_since_dow(day as int, dow)),
        in_range(r as int),
        r <= day,
{
    let wd = weekday(day).num_from_monday0();
    let target = dow.num_from_monday0();
    let diff: u8 = (wd + 7 - target) % 7;
    assert(diff as int == days_since_dow(day as int, dow)) by {
        assert((wd + 7 - target) % 7 == (wd - target) % 7) by (nonlinear_arith);
    }
    sub_days(day, diff as u64)
}

/// The day `months` months after `day` (the month's last day where the day of
/// the month does not exist), or `MAX_DAY` when out of range.
pub fn add_months(day: i32, months: u32) -> (r: i32)
    requires
        in_range(day as int),
    ensures
        r as int == or_max(add_months_of(day as int, months as int)),
        in_range(r as int),
{
    match checked_add_months(day, months) {
        Some(n) => n,
        None => MAX_DAY,
    }
}

/// The day `months` months before `day` (the month's last day where the day of
/// the month does not exist), or `MIN_DAY` when out of range.
pub fn subtract_months(day: i32, months: u32) -> (r: i32)
    requires
        in_range(day as int),
    ensures
        r as int == match sub_months_of(day as int, months as int) {
            Some(n) => n,
            None => MIN_DAY as int,
        },
        in_range(r as int),
{
    match checked_sub_months(day, months) {
        Some(n) => n,
        None => MIN_DAY,
    }
}

/// The first instant (seconds since the Unix epoch) of a day.
pub fn day_start(day: i32) -> (r: i64)
    requires
        in_range(day as int),
    ensures
        r as int == day_start_spec(day as int),
        MIN_INSTANT <= r <= MAX_INSTANT - (SECS_PER_DAY - 1),
{
    (day as i64 - EPOCH_DAY as i64) * SECS_PER_DAY
}

/// The day that an instant falls on, limited to the supported range.
pub fn day_of_instant(t: i64) -> (r: i32)
    ensures
        r as int == day_of_instant_spec(t as int),
        in_range(r as int),
{
    if t < MIN_INSTANT {
        MIN_DAY
    } else if t > MAX_INSTANT {
        MAX_DAY
    } else {
        let offset = ((t - MIN_INSTANT) as u64 / SECS_PER_DAY as u64) as i64;
        proof {
            let m = (MIN_DAY - EPOCH_DAY) as int;
            assert(MIN_INSTANT as int == m * 86400);
            lemma_div_shift(t as int, m);
        }
        (MIN_DAY as i64 + offset) as i32
    }
}

proof fn lemma_div_shift(t: int, m: int)
    ensures
        (t - m * 86400) / 86400 == t / 86400 - m,
{
    let q = t / 86400;
    let r = t % 86400;
    vstd::arithmetic::div_mod::lemma_fundamental_div_mod(t, 86400);
    vstd::arithmetic::div_mod::lemma_mod_bound(t, 86400);
    assert(t - m * 86400 == 86400 * (q - m) + r) by (nonlinear_arith)
        requires
            t == 86400 * q + r,
    ;
    vstd::arithmetic::div_mod::lemma_div_multiples_vanish_fancy(q - m, r, 86400);
}

} // verus!
