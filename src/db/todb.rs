//! Convert things from the external format to the format used in the database.
use vstd::prelude::*;
use crate::types::{DayFilter, ItemType, OccDate, Sched};
use crate::util::dates::{
    day_start, day_start_spec, first_of_year, first_of_year_spec, with_month_dom_saturating,
    with_month_dom_spec,
};
use super::fromdb::item_type_name;
use super::{DbResult, Error};

verus! {

/// The integer that a decimal text denotes, `None` where it denotes none that
/// fits in an `i64`.
pub uninterp spec fn parse_i64_of(s: Seq<char>) -> Option<int>;

/// Relies on `str::parse::<i64>`: the integer the text denotes, `None` where
/// it is no decimal integer or does not fit.
#[verifier::external_body]
fn parse_i64(s: &str) -> (r: Option<i64>)
    ensures
        match r {
            Some(n) => parse_i64_of(s@) == Some(n as int),
            None => parse_i64_of(s@) is None,
        },
{
    match s.parse::<i64>() {
        Ok(n) => Some(n),
        Err(_) => None,
    }
}

/// Convert an external object ID to a database ID.
///
/// Fails with [`Error::InvalidId`] where `id` is no decimal integer.
pub fn id(ext_id: &str) -> (r: DbResult<i64>)
    ensures
        match parse_i64_of(ext_id@) {
            Some(n) => r == Ok::<i64, Error>(n as i64),
            None => r matches Err(Error::InvalidId(s)) && s@ == ext_id@,
        },
{
    match parse_i64(ext_id) {
        Some(n) => Ok(n),
        None => {
            let s = ext_id.to_string();
            proof {
                vstd::string::to_string_from_display_ensures_for_str(ext_id, s);
            }
            Err(Error::InvalidId(s))
        },
    }
}

/// Convert item type to value stored in database.
pub fn item_type(type_: &ItemType) -> (r: &'static str)
    ensures
        r@ == item_type_name(*type_),
{
    match type_ {
        ItemType::Event => "Event",
        ItemType::ProgressTask => "ProgressTask",
        ItemType::DeadlineTask => "DeadlineTask",
    }
}

/// Convert occurrence date to value stored in database.
pub fn occ_date(date: OccDate) -> (r: i64)
    ensures
        r == date,
{
    date
}

/// The day of a single-date filter: the given day of the month (or the
/// month's last day where it does not exist) of the given month and year.
pub open spec fn single_date_day(dom: u8, month: u8, year: i32) -> int {
    with_month_dom_spec(first_of_year_spec(year as int), month as int, dom as int)
}

/// Produce a value for the `only_occ_end` column for an item: the instant of
/// a single-date event (its date at its time of day, midnight where it has
/// none), `None` for any other schedule.
pub fn item_only_occ_date(sched: &Sched) -> (r: Option<i64>)
    ensures
        match sched {
            Sched::Event(e) => match e.days {
                DayFilter::Date { dom, month, year } => r == Some(
                    (day_start_spec(single_date_day(dom, month, year)) + match e.time {
                        Some(t) => t as int,
                        None => 0int,
                    }) as i64,
                ),
                _ => r is None,
            },
            _ => r is None,
        },
{
    match sched {
        Sched::Event(e) => match &e.days {
            DayFilter::Date { dom, month, year } => {
                let day = with_month_dom_saturating(first_of_year(*year), *month, *dom);
                let t: u32 = match e.time {
                    Some(t) => t,
                    None => 0,
                };
                Some(occ_date(day_start(day) + t as i64))
            },
            _ => None,
        },
        _ => None,
    }
}

} // verus!
