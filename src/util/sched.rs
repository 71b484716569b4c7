//! [Schedule](crate::types::Sched) expansion: the days that a day filter
//! matches, and the periods of a progress task.
use vstd::prelude::*;
use crate::types::{Day, DayFilter, ProgressTaskSched, Weekday};
use super::dates::{
    add_days, add_days_spec, add_months, add_months_of, backwards_to_dow, day_of_civil, days_in_month,
    days_since_dow, days_to_dow, first_of_month, first_of_month_spec, first_of_year,
    first_of_year_spec, first_of_year_wide, forwards_to_dow, in_range, min_int, month_len, month_of,
    or_max, sub_days_spec, sub_months_of, subtract_months, weekday, weekday_index,
    with_dom_saturating, with_dom_spec, with_month_dom_saturating, with_month_dom_spec, year_of,
    year_of_date, MAX_DAY, MIN_DAY,
};

verus! {

/// Most months that one step of a month-based filter looks through before
/// treating the filter as exhausted.
pub const MONTH_SEARCH_LIMIT: u32 = 400;

/// Whether the day of the week of `day` is one of `days`.
pub open spec fn dows_match(days: Seq<Weekday>, day: int) -> bool {
    exists|i: int| 0 <= i < days.len() && days[i].index() == weekday_index(day)
}

/// Whether day of the month `c` of a month of `len` days is one of `days`,
/// after days past the month's end are moved to its last day.
pub open spec fn dom_match(days: Seq<u8>, len: int, c: int) -> bool {
    exists|i: int| 0 <= i < days.len() && days[i] >= 1 && min_int(days[i] as int, len) == c
}

/// Whether day of the month `c` (of the month starting on day `first`) falls
/// on `dow` in one of the listed `weeks` of the month.
pub open spec fn wom_match(dow: Weekday, weeks: Seq<u8>, first: int, c: int) -> bool {
    &&& weekday_index(first + c - 1) == dow.index()
    &&& exists|i: int| 0 <= i < weeks.len() && weeks[i] as int == (c - 1) / 7 + 1
}

/// Whether day of the month `c`, of the month starting on day `first` with
/// `len` days, is matched by a month-based filter.
pub open spec fn month_match(filter: DayFilter, first: int, len: int, c: int) -> bool {
    &&& 1 <= c <= len
    &&& match filter {
        DayFilter::Dom { days, .. } => dom_match(days@, len, c),
        DayFilter::Wom { dow, weeks, .. } => wom_match(dow, weeks@, first, c),
        _ => false,
    }
}

pub open spec fn months_apart_of(filter: DayFilter) -> int {
    match filter {
        DayFilter::Dom { months_apart, .. } => months_apart as int,
        DayFilter::Wom { months_apart, .. } => months_apart as int,
        _ => 0,
    }
}

/// Number of days of the month starting on `first`.
pub open spec fn month_len_at(first: int) -> int {
    month_len(year_of(first), month_of(first))
}

/// The first day of the month `k` months after the month starting on `first`.
pub open spec fn step_month(first: int, k: int) -> int {
    first_of_month_spec(or_max(add_months_of(first, k)))
}

/// The month reached from the one starting on `first` after `j` steps of `k`
/// months.
pub open spec fn month_after(first: int, k: int, j: nat) -> int
    decreases j,
{
    if j == 0 {
        first
    } else {
        step_month(month_after(first, k, (j - 1) as nat), k)
    }
}

/// Whether no day on or after `from` of the month starting on `first` matches
/// (a month too close to the last supported day is never searched).
pub open spec fn no_match_from(filter: DayFilter, first: int, from: int) -> bool {
    first + 31 <= MAX_DAY ==> forall|c: int|
        from - first + 1 <= c ==> !month_match(filter, first, month_len_at(first), c)
}

/// Whether `d` is the first matching day on or after `from` of the month
/// starting on `first`.
pub open spec fn first_match_from(filter: DayFilter, first: int, from: int, d: int) -> bool {
    &&& from <= d < MAX_DAY
    &&& in_range(d)
    &&& month_match(filter, first, month_len_at(first), d - first + 1)
    &&& forall|c: int|
        from - first + 1 <= c < d - first + 1 ==> !month_match(
            filter,
            first,
            month_len_at(first),
            c,
        )
}

/// Whether the months from the one starting on `first`, stepping `k`
/// months, have no match on or after `day` up to the `j`-th (excluded).
pub open spec fn months_without_match(filter: DayFilter, first: int, k: int, day: int, j: nat) -> bool {
    forall|i: nat| i < j ==> no_match_from(filter, #[trigger] month_after(first, k, i), day)
}

/// Whether the search from cursor `day` in the month starting on `first`
/// finds `d` in the `j`-th month it steps to.
pub open spec fn finds_at(filter: DayFilter, first: int, day: int, j: nat, d: int) -> bool {
    let k = months_apart_of(filter);
    &&& j < MONTH_SEARCH_LIMIT
    &&& months_without_match(filter, first, k, day, j)
    &&& first_match_from(filter, month_after(first, k, j), day, d)
}

/// Whether the search from cursor `day` in the month starting on `first`
/// gives up at the `j`-th month: no month up to it has a match, and the
/// months stop moving forward there or the search limit is reached.
pub open spec fn gives_up_at(filter: DayFilter, first: int, day: int, j: nat) -> bool {
    let k = months_apart_of(filter);
    &&& j < MONTH_SEARCH_LIMIT
    &&& months_without_match(filter, first, k, day, j + 1)
    &&& (step_month(month_after(first, k, j), k) <= month_after(first, k, j) || j + 1
        == MONTH_SEARCH_LIMIT)
}

/// One step of a month-based filter from cursor `day` in the month starting on
/// `first`: it moves through the months `first`, then `months_apart` months
/// on, and so on, skipping those without a match on or after the cursor, and
/// produces the first match of the first month that has one.  It ends where
/// the months stop moving forward or `MONTH_SEARCH_LIMIT` months were looked
/// through.
pub open spec fn months_step(
    filter: DayFilter,
    day: int,
    first: int,
    r: Option<Day>,
    next_day: int,
    next_first: int,
    next_done: bool,
) -> bool {
    match r {
        Some(d) => {
            &&& next_day == d + 1
            &&& !next_done
            &&& exists|j: nat|
                #[trigger] finds_at(filter, first, day, j, d as int) && next_first == month_after(
                    first,
                    months_apart_of(filter),
                    j,
                )
        },
        None => {
            &&& next_done
            &&& next_day == day
            &&& exists|j: nat| #[trigger] gives_up_at(filter, first, day, j)
        },
    }
}

pub open spec fn is_month_filter(filter: DayFilter) -> bool {
    filter is Dom || filter is Wom
}

/// Iterate over dates matching a [`DayFilter`].
///
/// The dates come in strictly ascending order, none before the start day.
/// Where a date would leave the supported range, the iteration ends.
pub struct DayFilterDaysIter<'a> {
    day_filter: &'a DayFilter,
    /// The day the iteration started from.
    start: Day,
    /// No date before this one is still to come.
    day: Day,
    /// First day of the month being looked through (month-based filters).
    month_first: Day,
    done: bool,
}

impl<'a> DayFilterDaysIter<'a> {
    pub closed spec fn filter(&self) -> DayFilter {
        *self.day_filter
    }

    pub closed spec fn start_day(&self) -> int {
        self.start as int
    }

    /// The earliest day that may still be produced.
    pub closed spec fn cursor(&self) -> int {
        self.day as int
    }

    pub closed spec fn month_first(&self) -> int {
        self.month_first as int
    }

    pub closed spec fn is_done(&self) -> bool {
        self.done
    }

    pub closed spec fn wf(&self) -> bool {
        &&& in_range(self.start as int)
        &&& self.start <= self.day
        &&& in_range(self.day as int)
        &&& in_range(self.month_first as int)
    }

    /// Create a new iterator, starting from `start_day`.
    ///
    /// `start_day` may be included in the results.
    pub fn new(day_filter: &'a DayFilter, start_day: Day) -> (r: DayFilterDaysIter<'a>)
        requires
            in_range(start_day as int),
        ensures
            r.wf(),
            r.filter() == *day_filter,
            r.start_day() == start_day,
            r.cursor() == start_day,
            r.month_first() == first_of_month_spec(start_day as int),
            !r.is_done(),
            in_range(r.cursor()),
    {
        let month_first = first_of_month(start_day);
        DayFilterDaysIter { day_filter, start: start_day, day: start_day, month_first, done: false }
    }

    /// Produce `d` (with `d >= self.day`), continuing from `next` afterwards;
    /// where `next` is not past `d`, or `d` is the last supported day, no
    /// further dates follow.
    fn emit(&mut self, d: Day, next: Day) -> (r: Option<Day>)
        requires
            old(self).wf(),
            old(self).day <= d,
            in_range(d as int),
            in_range(next as int),
        ensures
            final(self).wf(),
            final(self).start == old(self).start,
            final(self).day_filter == old(self).day_filter,
            final(self).month_first == old(self).month_first,
            d < MAX_DAY ==> r == Some(d),
            d < MAX_DAY && next > d ==> final(self).day == next && final(self).done == old(
                self,
            ).done,
            d < MAX_DAY && next <= d ==> final(self).day == d + 1 && final(self).done,
            d == MAX_DAY ==> r is None && final(self).done && final(self).day == old(self).day,
    {
        if d == MAX_DAY {
            self.done = true;
            None
        } else if next > d {
            self.day = next;
            Some(d)
        } else {
            self.day = d + 1;
            self.done = true;
            Some(d)
        }
    }

    /// The next matching day of a `Dows` filter, looking at most a week ahead.
    fn next_dows(days: &Vec<Weekday>, now: Day) -> (r: Option<Day>)
        requires
            in_range(now as int),
        ensures
            match r {
                Some(d) => {
                    &&& now <= d
                    &&& in_range(d as int)
                    &&& dows_match(days@, d as int)
                    &&& forall|x: int| now <= x < d ==> !dows_match(days@, x)
                },
                None => forall|x: int| now <= x < now + 7 && x <= MAX_DAY ==> !dows_match(days@, x),
            },
    {
        let mut k: u8 = 0;
        while k < 7
            invariant
                k <= 7,
                in_range(now as int),
                forall|x: int| now <= x < now + k && x <= MAX_DAY ==> !dows_match(days@, x),
            decreases 7 - k,
        {
            if now as i64 + k as i64 > MAX_DAY as i64 {
                return None;
            }
            let d: Day = now + k as i32;
            let wd = weekday(d);
            let mut i: usize = 0;
            while i < days.len()
                invariant
                    i <= days.len(),
                    wd.index() == weekday_index(d as int),
                    d == now + k,
                    in_range(d as int),
                    k < 7,
                    forall|x: int| now <= x < now + k && x <= MAX_DAY ==> !dows_match(days@, x),
                    forall|j: int| 0 <= j < i ==> days@[j].index() != wd.index(),
                decreases days.len() - i,
            {
                if days[i].num_from_monday0() == wd.num_from_monday0() {
                    assert(days@[i as int].index() == weekday_index(d as int));
                    assert(dows_match(days@, d as int));
                    assert(forall|x: int| now <= x < d ==> !dows_match(days@, x));
                    return Some(d);
                }
                i += 1;
            }
            k += 1;
        }
        None
    }

    /// Whether day of the month `c` of a month of `len` days is one of `days`.
    fn dom_matches(days: &Vec<u8>, len: u8, c: u8) -> (r: bool)
        ensures
            r == dom_match(days@, len as int, c as int),
    {
        let mut i: usize = 0;
        while i < days.len()
            invariant
                i <= days.len(),
                forall|j: int|
                    0 <= j < i ==> !(days@[j] >= 1 && min_int(days@[j] as int, len as int) == c),
            decreases days.len() - i,
        {
            let dd = days[i];
            let sat = if dd <= len {
                dd
            } else {
                len
            };
            if dd >= 1 && sat == c {
                assert(days@[i as int] >= 1 && min_int(days@[i as int] as int, len as int) == c);
                return true;
            }
            i += 1;
        }
        false
    }

    /// Whether day of the month `c`, of the month starting on `first`, falls
    /// on `dow` in one of the listed `weeks`.
    fn wom_matches(dow: Weekday, weeks: &Vec<u8>, first: Day, c: u8) -> (r: bool)
        requires
            in_range(first as int),
            first as int + 30 <= MAX_DAY,
            1 <= c <= 31,
        ensures
            r == wom_match(dow, weeks@, first as int, c as int),
    {
        let d: Day = first + (c as i32 - 1);
        if weekday(d).num_from_monday0() != dow.num_from_monday0() {
            return false;
        }
        let week: u8 = (c - 1) / 7 + 1;
        let mut i: usize = 0;
        while i < weeks.len()
            invariant
                i <= weeks.len(),
                week as int == (c - 1) / 7 + 1,
                weekday_index(first + c - 1) == dow.index(),
                forall|j: int| 0 <= j < i ==> weeks@[j] != week,
            decreases weeks.len() - i,
        {
            if weeks[i] == week {
                assert(weeks@[i as int] as int == (c - 1) / 7 + 1);
                return true;
            }
            i += 1;
        }
        false
    }

    /// Whether day of the month `c` of the month starting on `first`, with
    /// `len` days, is matched by a month-based filter.
    fn month_matches(filter: &DayFilter, first: Day, len: u8, c: u8) -> (r: bool)
        requires
            in_range(first as int),
            first as int + 30 <= MAX_DAY,
            1 <= c <= len,
            28 <= len <= 31,
        ensures
            r == month_match(*filter, first as int, len as int, c as int),
    {
        match filter {
            DayFilter::Dom { days, .. } => Self::dom_matches(days, len, c),
            DayFilter::Wom { dow, weeks, .. } => Self::wom_matches(*dow, weeks, first, c),
            _ => false,
        }
    }

    /// The first day of the month starting on `first` which is not before
    /// `now` and matches a month-based filter.
    fn search_month(filter: &DayFilter, first: Day, now: Day) -> (r: Option<Day>)
        requires
            in_range(first as int),
            in_range(now as int),
        ensures
            match r {
                Some(d) => first_match_from(*filter, first as int, now as int, d as int),
                None => no_match_from(*filter, first as int, now as int),
            },
    {
        let len = days_in_month(first);
        if first as i64 + 31 > MAX_DAY as i64 {
            return None;
        }
        let lowest: i64 = now as i64 - first as i64 + 1;
        let mut c: u8 = if lowest < 1 {
            1
        } else if lowest > 32 {
            32
        } else {
            lowest as u8
        };
        while c <= len
            invariant
                1 <= c <= 32,
                28 <= len <= 31,
                len as int == month_len(year_of(first as int), month_of(first as int)),
                in_range(first as int),
                in_range(now as int),
                c >= now - first + 1 || c == 32,
                first + 31 <= MAX_DAY,
                forall|x: int|
                    now - first + 1 <= x < c ==> !month_match(*filter, first as int, len as int, x),
            decreases 32 - c,
        {
            if Self::month_matches(filter, first, len, c) {
                return Some(first + (c as i32 - 1));
            }
            c += 1;
        }
        None
    }

    /// Produce the next matching day of a month-based filter.
    fn next_in_months(&mut self) -> (r: Option<Day>)
        requires
            old(self).wf(),
            !old(self).done,
            is_month_filter(*old(self).day_filter),
        ensures
            final(self).wf(),
            final(self).start == old(self).start,
            final(self).day_filter == old(self).day_filter,
            months_step(
                *old(self).day_filter,
                old(self).day as int,
                old(self).month_first as int,
                r,
                final(self).day as int,
                final(self).month_first as int,
                final(self).done,
            ),
    {
        let months_apart = match self.day_filter {
            DayFilter::Dom { months_apart, .. } => *months_apart,
            DayFilter::Wom { months_apart, .. } => *months_apart,
            _ => 0,
        };
        let ghost f = *self.day_filter;
        let ghost k = months_apart as int;
        let ghost m0 = self.month_first as int;
        assert(k == months_apart_of(f));
        let mut searched: u32 = 0;
        while searched < MONTH_SEARCH_LIMIT
            invariant
                self.wf(),
                self.start == old(self).start,
                self.day_filter == old(self).day_filter,
                self.day == old(self).day,
                !self.done,
                f == *self.day_filter,
                k == months_apart as int,
                k == months_apart_of(f),
                m0 == old(self).month_first,
                searched <= MONTH_SEARCH_LIMIT,
                self.month_first == month_after(m0, k, searched as nat),
                forall|i: nat|
                    i < searched ==> no_match_from(f, #[trigger] month_after(m0, k, i), self.day as int),
            decreases MONTH_SEARCH_LIMIT - searched,
        {
            let now = self.day;
            let found = Self::search_month(self.day_filter, self.month_first, now);
            if let Some(d) = found {
                let next = add_days(d, 1);
                let ghost j = searched as nat;
                let r = self.emit(d, next);
                assert(finds_at(f, m0, old(self).day as int, j, d as int));
                return r;
            }
            let next_first = first_of_month(add_months(self.month_first, months_apart));
            assert(month_after(m0, k, (searched + 1) as nat) == step_month(
                month_after(m0, k, searched as nat),
                k,
            ));
            if next_first <= self.month_first {
                self.done = true;
                let ghost j = searched as nat;
                assert(months_without_match(f, m0, k, old(self).day as int, j + 1)) by {
                    assert forall|i: nat| i < j + 1 implies no_match_from(
                        f,
                        #[trigger] month_after(m0, k, i),
                        old(self).day as int,
                    ) by {}
                }
                assert(gives_up_at(f, m0, old(self).day as int, j));
                return None;
            }
            self.month_first = next_first;
            searched += 1;
        }
        self.done = true;
        let ghost j = (MONTH_SEARCH_LIMIT - 1) as nat;
        assert(months_without_match(f, m0, k, old(self).day as int, j + 1));
        assert(gives_up_at(f, m0, old(self).day as int, j));
        None
    }

    /// Produce the next matching day, if there is one.
    pub fn next(&mut self) -> (r: Option<Day>)
        requires
            old(self).wf(),
        ensures
            final(self).wf(),
            final(self).filter() == old(self).filter(),
            final(self).start_day() == old(self).start_day(),
            final(self).cursor() >= old(self).cursor(),
            r matches Some(d) ==> old(self).cursor() <= d < final(self).cursor(),
            in_range(old(self).cursor()),
            old(self).start_day() <= old(self).cursor(),
            in_range(final(self).cursor()),
            r matches Some(d) ==> in_range(d as int),
            old(self).is_done() ==> r is None,
            steps_to(*old(self), r, *final(self)),
    {
        if self.done {
            return None;
        }
        let now = self.day;
        match self.day_filter {
            DayFilter::Day { days_apart } => {
                let next = add_days(now, *days_apart as u64);
                self.emit(now, next)
            },
            DayFilter::Dow { day: dow, weeks_apart } => {
                let d = forwards_to_dow(now, *dow);
                let next = add_days(d, *weeks_apart as u64 * 7);
                self.emit(d, next)
            },
            DayFilter::Dows { days } => {
                match Self::next_dows(days, now) {
                    Some(d) => {
                        let next = add_days(d, 1);
                        self.emit(d, next)
                    },
                    None => {
                        self.done = true;
                        None
                    },
                }
            },
            DayFilter::Dom { .. } => self.next_in_months(),
            DayFilter::Wom { .. } => self.next_in_months(),
            DayFilter::Doy { dom, month, years_apart } => {
                let this_year = with_month_dom_saturating(now, *month, *dom);
                let d = if this_year >= now {
                    this_year
                } else {
                    let next_year = first_of_year_wide(year_of_date(now) as i64 + 1);
                    with_month_dom_saturating(next_year, *month, *dom)
                };
                if d < now {
                    self.done = true;
                    return None;
                }
                let next = first_of_year_wide(year_of_date(d) as i64 + *years_apart as i64);
                self.emit(d, next)
            },
            DayFilter::Date { dom, month, year } => {
                let d = with_month_dom_saturating(first_of_year(*year), *month, *dom);
                if d > now {
                    self.emit(d, d)
                } else {
                    self.done = true;
                    None
                }
            },
        }
    }
}

/// The effect of producing `d` and continuing from `next`: no further date
/// where `next` is not past `d`, and none at all at the last supported day.
pub open spec fn emit_step(
    a: DayFilterDaysIter,
    d: int,
    next: int,
    r: Option<Day>,
    b: DayFilterDaysIter,
) -> bool {
    &&& b.month_first() == a.month_first()
    &&& d == MAX_DAY ==> r is None && b.is_done() && b.cursor() == a.cursor()
    &&& d < MAX_DAY ==> r == Some(d as Day)
    &&& d < MAX_DAY && next > d ==> b.cursor() == next && !b.is_done()
    &&& d < MAX_DAY && next <= d ==> b.cursor() == d + 1 && b.is_done()
}

/// The iteration ends without producing a date.
pub open spec fn ends(a: DayFilterDaysIter, r: Option<Day>, b: DayFilterDaysIter) -> bool {
    &&& r is None
    &&& b.is_done()
    &&& b.cursor() == a.cursor()
    &&& b.month_first() == a.month_first()
}

/// One step of the iteration: from `a`, producing `r`, to `b`.
pub open spec fn steps_to(a: DayFilterDaysIter, r: Option<Day>, b: DayFilterDaysIter) -> bool {
    let c = a.cursor();
    &&& b.filter() == a.filter()
    &&& b.start_day() == a.start_day()
    &&& if a.is_done() {
        ends(a, r, b)
    } else {
        match a.filter() {
            DayFilter::Day { days_apart } => emit_step(
                a,
                c,
                add_days_spec(c, days_apart as int),
                r,
                b,
            ),
            DayFilter::Dow { day, weeks_apart } => {
                let d = add_days_spec(c, days_to_dow(c, day));
                emit_step(a, d, add_days_spec(d, 7 * weeks_apart), r, b)
            },
            DayFilter::Dows { days } => match r {
                Some(d) => {
                    &&& dows_match(days@, d as int)
                    &&& forall|x: int| c <= x < d ==> !dows_match(days@, x)
                    &&& emit_step(a, d as int, d + 1, r, b)
                },
                None => ends(a, r, b) && forall|x: int|
                    c <= x < c + 7 && x < MAX_DAY ==> !dows_match(days@, x),
            },
            DayFilter::Doy { dom, month, years_apart } => {
                let this_year = with_month_dom_spec(c, month as int, dom as int);
                let d = if this_year >= c {
                    this_year
                } else {
                    with_month_dom_spec(
                        first_of_year_spec(year_of(c) + 1),
                        month as int,
                        dom as int,
                    )
                };
                if d < c {
                    ends(a, r, b)
                } else {
                    emit_step(a, d, first_of_year_spec(year_of(d) + years_apart), r, b)
                }
            },
            DayFilter::Date { dom, month, year } => {
                let d = with_month_dom_spec(
                    first_of_year_spec(year as int),
                    month as int,
                    dom as int,
                );
                if d > c {
                    emit_step(a, d, d, r, b)
                } else {
                    ends(a, r, b)
                }
            },
            _ => months_step(
                a.filter(),
                c,
                a.month_first(),
                r,
                b.cursor(),
                b.month_first(),
                b.is_done(),
            ),
        }
    }
}

/// Whether `it` is a fresh iteration of `filter` from `start`.
pub open spec fn fresh(it: DayFilterDaysIter, filter: DayFilter, start: int) -> bool {
    &&& it.filter() == filter
    &&& it.start_day() == start
    &&& it.cursor() == start
    &&& it.month_first() == first_of_month_spec(start)
    &&& !it.is_done()
}

/// Whether `its` are successive states of an iteration that produces `days`
/// in order.
pub open spec fn produces(its: Seq<DayFilterDaysIter>, days: Seq<int>) -> bool {
    &&& its.len() == days.len() + 1
    &&& forall|i: int|
        0 <= i < days.len() ==> #[trigger] steps_to(its[i], Some(days[i] as Day), its[i + 1])
}

/// Whether the iteration in state `it` ends without another date.
pub open spec fn ends_at(it: DayFilterDaysIter) -> bool {
    exists|b: DayFilterDaysIter| #[trigger] steps_to(it, None, b)
}

/// A step appended to a trace keeps it a trace.
pub proof fn lemma_produces_push(
    its: Seq<DayFilterDaysIter>,
    days: Seq<int>,
    d: Day,
    b: DayFilterDaysIter,
)
    requires
        produces(its, days),
        steps_to(its.last(), Some(d), b),
    ensures
        produces(its.push(b), days.push(d as int)),
{
    let its2 = its.push(b);
    let days2 = days.push(d as int);
    assert forall|i: int| 0 <= i < days2.len() implies #[trigger] steps_to(
        its2[i],
        Some(days2[i] as Day),
        its2[i + 1],
    ) by {
        if i < days.len() {
            assert(its2[i] == its[i] && its2[i + 1] == its[i + 1] && days2[i] == days[i]);
        } else {
            assert(its2[i] == its.last() && its2[i + 1] == b && days2[i] == d);
        }
    }
}

/// The start of the period containing `day`, aligned as the schedule asks.
pub open spec fn align_spec(sched: ProgressTaskSched, day: int) -> int {
    match sched {
        ProgressTaskSched::Days { .. } => day,
        ProgressTaskSched::Weeks { start_day, .. } => sub_days_spec(
            day,
            days_since_dow(day, start_day),
        ),
        ProgressTaskSched::Months { start_day, .. } => {
            let this_month = with_dom_spec(day, start_day as int);
            if this_month <= day {
                this_month
            } else {
                let month_ago = match sub_months_of(day, 1) {
                    Some(n) => n,
                    None => MIN_DAY as int,
                };
                with_dom_spec(month_ago, start_day as int)
            }
        },
        ProgressTaskSched::Years { start_month, start_dom, .. } => {
            let this_year = with_month_dom_spec(day, start_month as int, start_dom as int);
            if this_year <= day {
                this_year
            } else {
                with_month_dom_spec(
                    first_of_year_spec(year_of(day) - 1),
                    start_month as int,
                    start_dom as int,
                )
            }
        },
    }
}

/// The end of the period starting on `start`.
pub open spec fn period_end_spec(sched: ProgressTaskSched, start: int) -> int {
    match sched {
        ProgressTaskSched::Days { num } => add_days_spec(start, num as int),
        ProgressTaskSched::Weeks { num, .. } => add_days_spec(start, 7 * num),
        ProgressTaskSched::Months { num, start_day } => with_dom_spec(
            or_max(add_months_of(start, num as int)),
            start_day as int,
        ),
        ProgressTaskSched::Years { num, start_month, start_dom } => with_month_dom_spec(
            first_of_year_spec(year_of(start) + num),
            start_month as int,
            start_dom as int,
        ),
    }
}

/// Iterate over date periods matching a [`ProgressTaskSched`].
///
/// Items are `(start_day, end_day)` for each occurrence that should be
/// produced, end excluded.  The first period is aligned to the schedule and
/// contains the start day; each later one starts where the one before ended.
/// The iteration ends where a period would be empty or reach the last
/// supported day.
pub struct ProgressTaskPeriodsIter<'a> {
    sched: &'a ProgressTaskSched,
    day: Day,
    started: bool,
    done: bool,
}

impl<'a> ProgressTaskPeriodsIter<'a> {
    pub closed spec fn sched(&self) -> ProgressTaskSched {
        *self.sched
    }

    /// Where the next period starts (before alignment, for the first one).
    pub closed spec fn cursor(&self) -> int {
        self.day as int
    }

    pub closed spec fn started(&self) -> bool {
        self.started
    }

    pub closed spec fn is_done(&self) -> bool {
        self.done
    }

    pub closed spec fn wf(&self) -> bool {
        in_range(self.day as int)
    }

    /// Create a new iterator, starting from `start_day`.
    ///
    /// `start_day` is included in the first result.
    pub fn new(sched: &'a ProgressTaskSched, start_day: Day) -> (r: ProgressTaskPeriodsIter<'a>)
        requires
            in_range(start_day as int),
        ensures
            r.wf(),
            r.sched() == *sched,
            r.cursor() == start_day,
            !r.started(),
            !r.is_done(),
            in_range(r.cursor()),
    {
        ProgressTaskPeriodsIter { sched, day: start_day, started: false, done: false }
    }

    /// Create an iterator whose first period starts on `start_day` as it
    /// stands, continuing periods that ended there.
    pub fn continuing(sched: &'a ProgressTaskSched, start_day: Day) -> (r: ProgressTaskPeriodsIter<
        'a,
    >)
        requires
            in_range(start_day as int),
        ensures
            r.wf(),
            r.sched() == *sched,
            r.cursor() == start_day,
            r.started(),
            !r.is_done(),
            in_range(r.cursor()),
    {
        ProgressTaskPeriodsIter { sched, day: start_day, started: true, done: false }
    }

    fn align(sched: &ProgressTaskSched, day: Day) -> (r: Day)
        requires
            in_range(day as int),
        ensures
            r == align_spec(*sched, day as int),
            in_range(r as int),
    {
        match sched {
            ProgressTaskSched::Days { .. } => day,
            ProgressTaskSched::Weeks { start_day, .. } => backwards_to_dow(day, *start_day),
            ProgressTaskSched::Months { start_day, .. } => {
                let this_month = with_dom_saturating(day, *start_day);
                if this_month <= day {
                    this_month
                } else {
                    with_dom_saturating(subtract_months(day, 1), *start_day)
                }
            },
            ProgressTaskSched::Years { start_month, start_dom, .. } => {
                let this_year = with_month_dom_saturating(day, *start_month, *start_dom);
                if this_year <= day {
                    this_year
                } else {
                    let last_year = first_of_year_wide(year_of_date(day) as i64 - 1);
                    with_month_dom_saturating(last_year, *start_month, *start_dom)
                }
            },
        }
    }

    fn period_end(sched: &ProgressTaskSched, start: Day) -> (r: Day)
        requires
            in_range(start as int),
        ensures
            r == period_end_spec(*sched, start as int),
            in_range(r as int),
    {
        match sched {
            ProgressTaskSched::Days { num } => add_days(start, *num as u64),
            ProgressTaskSched::Weeks { num, .. } => add_days(start, 7 * *num as u64),
            ProgressTaskSched::Months { num, start_day } => {
                with_dom_saturating(add_months(start, *num as u32), *start_day)
            },
            ProgressTaskSched::Years { num, start_month, start_dom } => {
                let target = first_of_year_wide(year_of_date(start) as i64 + *num as i64);
                with_month_dom_saturating(target, *start_month, *start_dom)
            },
        }
    }

    /// Produce the next period, if there is one.
    pub fn next(&mut self) -> (r: Option<(Day, Day)>)
        requires
            old(self).wf(),
        ensures
            final(self).wf(),
            final(self).sched() == old(self).sched(),
            in_range(final(self).cursor()),
            old(self).is_done() ==> r is None,
            r is None ==> final(self).cursor() == old(self).cursor() && final(self).started() == old(
                self,
            ).started(),
            r matches Some((s, e)) ==> {
                &&& old(self).started() ==> s == old(self).cursor()
                &&& !old(self).started() ==> s == align_spec(old(self).sched(), old(self).cursor())
                &&& e == period_end_spec(old(self).sched(), s as int)
                &&& s < e < MAX_DAY
                &&& in_range(s as int)
                &&& final(self).cursor() == e
                &&& final(self).started()
                &&& !final(self).is_done()
            },
            !old(self).is_done() && r is None ==> ({
                let s = if old(self).started() {
                    old(self).cursor()
                } else {
                    align_spec(old(self).sched(), old(self).cursor())
                };
                let e = period_end_spec(old(self).sched(), s);
                e <= s || e == MAX_DAY
            }),
    {
        if self.done {
            return None;
        }
        let start = if self.started {
            self.day
        } else {
            Self::align(self.sched, self.day)
        };
        let end = Self::period_end(self.sched, start);
        if end <= start || end == MAX_DAY {
            self.done = true;
            return None;
        }
        self.day = end;
        self.started = true;
        Some((start, end))
    }
}

} // verus!
