//! Create new occurrences based on an item's schedule.
use vstd::prelude::*;
use crate::types::{Day, DeadlineTaskSched, EventSched, Occ, OccDate, ProgressTaskSched, Sched};
use super::dates::{
    day_of_instant, day_of_instant_spec, day_start, day_start_spec, in_range, MAX_DAY, MAX_INSTANT,
    MIN_DAY, MIN_INSTANT,
};
use super::sched::{
    align_spec, ends_at, fresh, lemma_produces_push, period_end_spec, produces, steps_to,
    DayFilterDaysIter, ProgressTaskPeriodsIter,
};

verus! {

/// Seconds in a day, as the bound of a time of day.
pub const DAY_SECS: u32 = 86_400;

/// An occurrence as the generator creates it: active, with no progress.
pub open spec fn is_new_occ(o: Occ) -> bool {
    o.active && o.task_completion_progress == 0
}

/// Whether an event schedule's time of day lies within a day.
pub open spec fn event_sched_wf(sched: EventSched) -> bool {
    &&& in_range(sched.initial_day as int)
    &&& sched.time matches Some(t) ==> t < DAY_SECS
}

/// Whether a schedule is valid to generate occurrences from.
pub open spec fn sched_wf(sched: Sched) -> bool {
    match sched {
        Sched::Event(e) => event_sched_wf(e),
        _ => true,
    }
}

/// The instant an event happens on `day`.
pub open spec fn event_instant(sched: EventSched, day: int) -> int {
    day_start_spec(day) + match sched.time {
        Some(t) => t as int,
        None => 0,
    }
}

/// The day an instant falls on.
pub open spec fn day_of(t: OccDate) -> int {
    day_of_instant_spec(t as int)
}

/// Whether `occ` already reaches past `until`, so that nothing is generated
/// after it.
pub open spec fn reaches_past(sched: Sched, occ: Occ, until: OccDate) -> bool {
    match sched {
        Sched::Event(_) => occ.start > until || day_of(occ.start) == MAX_DAY,
        Sched::ProgressTask(_) => day_of(occ.end) > day_of(until) || day_of(occ.end) == MAX_DAY,
        Sched::DeadlineTask(d) => occ.end >= until || d.duration == 0,
    }
}

/// Whether the periods of a schedule stop at `day`: the period starting there
/// would be empty or reach the last supported day.
pub open spec fn periods_stop(sched: ProgressTaskSched, day: int) -> bool {
    period_end_spec(sched, day) <= day || period_end_spec(sched, day) == MAX_DAY
}

/// Whether consecutive occurrences start in strictly ascending order.
pub open spec fn ascending(occs: Seq<Occ>) -> bool {
    forall|i: int, j: int| 0 <= i < j < occs.len() ==> occs[i].start < occs[j].start
}

/// Whether each occurrence starts where the one before it ended.
pub open spec fn contiguous(occs: Seq<Occ>) -> bool {
    forall|i: int| 0 <= i < occs.len() - 1 ==> #[trigger] occs[i].end == occs[i + 1].start
}

/// What [`EventOccGen::generate_after`] gives.
pub open spec fn event_after(sched: EventSched, occ: Occ, until: OccDate, r: Seq<Occ>) -> bool {
    &&& reaches_past(Sched::Event(sched), occ, until) ==> r.len() == 0
    &&& !reaches_past(Sched::Event(sched), occ, until) ==> exists|
        its: Seq<DayFilterDaysIter>,
        days: Seq<int>,
    | #[trigger] event_trace(sched, day_of(occ.start) + 1, until, r, its, days)
    &&& forall|i: int| 0 <= i < r.len() ==> is_new_occ(#[trigger] r[i]) && r[i].start == r[i].end
}

/// What [`EventOccGen::generate_first`] gives.
pub open spec fn event_first(sched: EventSched, now: OccDate, r: Option<Occ>) -> bool {
    exists|its: Seq<DayFilterDaysIter>, days: Seq<int>|
        #[trigger] first_event_trace(sched, day_of(now), r, its, days)
}

/// What [`ProgressTaskOccGen::generate_after`] gives.
pub open spec fn progress_after(
    sched: ProgressTaskSched,
    occ: Occ,
    until: OccDate,
    r: Seq<Occ>,
) -> bool {
    &&& reaches_past(Sched::ProgressTask(sched), occ, until) ==> r.len() == 0
    &&& forall|i: int| 0 <= i < r.len() ==> is_new_occ(#[trigger] r[i]) && r[i].start < r[i].end
    &&& r.len() > 0 ==> r[0].start == day_start_spec(day_of(occ.end))
    &&& contiguous(r)
    &&& forall|i: int|
        0 <= i < r.len() ==> #[trigger] r[i].end == day_start_spec(
            period_end_spec(sched, day_of(r[i].start)),
        )
    &&& forall|i: int| 0 <= i < r.len() - 1 ==> #[trigger] day_of(r[i].end) <= day_of(until)
    &&& !reaches_past(Sched::ProgressTask(sched), occ, until) ==> if r.len() == 0 {
        periods_stop(sched, day_of(occ.end))
    } else {
        day_of(r.last().end) > day_of(until) || periods_stop(sched, day_of(r.last().end))
    }
}

/// What [`ProgressTaskOccGen::generate_first`] gives.
pub open spec fn progress_first(sched: ProgressTaskSched, now: OccDate, r: Option<Occ>) -> bool {
    let s = align_spec(sched, day_of(now));
    let e = period_end_spec(sched, s);
    &&& s < e < MAX_DAY ==> r == Some(
        Occ {
            active: true,
            start: day_start_spec(s) as i64,
            end: day_start_spec(e) as i64,
            task_completion_progress: 0,
        },
    )
    &&& !(s < e < MAX_DAY) ==> r is None
}

/// What [`DeadlineTaskOccGen::generate_after`] gives.
pub open spec fn deadline_after(
    sched: DeadlineTaskSched,
    occ: Occ,
    until: OccDate,
    r: Seq<Occ>,
) -> bool {
    &&& reaches_past(Sched::DeadlineTask(sched), occ, until) ==> r.len() == 0
    &&& forall|i: int| 0 <= i < r.len() ==> is_new_occ(#[trigger] r[i])
    &&& r.len() > 0 ==> r[0].start == occ.end
    &&& contiguous(r)
    &&& forall|i: int|
        0 <= i < r.len() ==> #[trigger] r[i].end == add_secs_spec(
            r[i].start as int,
            sched.duration as int,
        ) && r[i].start < r[i].end && r[i].start < until
    &&& !reaches_past(Sched::DeadlineTask(sched), occ, until) ==> r.len() > 0
    &&& r.len() > 0 && r.last().end < i64::MAX ==> r.last().end >= until
}

/// What [`DeadlineTaskOccGen::generate_first`] gives.
pub open spec fn deadline_first(sched: DeadlineTaskSched, now: OccDate, r: Option<Occ>) -> bool {
    r == Some(
        Occ {
            active: true,
            start: now,
            end: add_secs_spec(now as int, sched.duration as int) as i64,
            task_completion_progress: 0,
        },
    )
}

/// Create a default occurrence for the date range.
pub fn new_occ(start: OccDate, end: OccDate) -> (r: Occ)
    ensures
        r.start == start,
        r.end == end,
        is_new_occ(r),
{
    Occ { active: true, start, end, task_completion_progress: 0 }
}

/// Return an occurrence date for the start of a `day`.
pub fn day_to_occ_date(day: Day) -> (r: OccDate)
    requires
        in_range(day as int),
    ensures
        r == day_start_spec(day as int),
{
    day_start(day)
}

/// Generate occurrences for [events](crate::types::ItemType::Event).
pub struct EventOccGen<'a> {
    pub sched: &'a EventSched,
}

impl<'a> EventOccGen<'a> {
    /// Create a default event occurrence happening on this `day`.
    pub fn for_day(&self, day: Day) -> (r: Occ)
        requires
            event_sched_wf(*self.sched),
            in_range(day as int),
        ensures
            r.start == event_instant(*self.sched, day as int),
            r.end == r.start,
            is_new_occ(r),
            day_of(r.start) == day,
    {
        let t: u32 = match self.sched.time {
            Some(t) => t,
            None => 0,
        };
        let start = day_start(day) + t as i64;
        proof {
            lemma_day_of_within(day as int, t as int);
        }
        new_occ(start, start)
    }

    /// Produce occurrences following `occ`, on the days the filter gives from
    /// the day after `occ`'s, up to and including the first one after
    /// `until`.
    ///
    /// Nothing is produced where `occ` is already after `until`.
    pub fn generate_after(&self, occ: &Occ, until: OccDate) -> (r: Vec<Occ>)
        requires
            event_sched_wf(*self.sched),
        ensures
            event_after(*self.sched, *occ, until, r@),
            reaches_past(Sched::Event(*self.sched), *occ, until) ==> r@.len() == 0,
            !reaches_past(Sched::Event(*self.sched), *occ, until) ==> exists|
                its: Seq<DayFilterDaysIter>,
                days: Seq<int>,
            |
                #[trigger] event_trace(*self.sched, day_of(occ.start) + 1, until, r@, its, days),
            forall|i: int| 0 <= i < r@.len() ==> is_new_occ(#[trigger] r@[i]),
            forall|i: int| 0 <= i < r@.len() ==> #[trigger] r@[i].start == r@[i].end,
            forall|i: int| 0 <= i < r@.len() ==> #[trigger] day_of(r@[i].start) > day_of(occ.start),
            forall|i: int| 0 <= i < r@.len() ==> #[trigger] r@[i].start > occ.start,
            ascending(r@),
            forall|i: int| 0 <= i < r@.len() - 1 ==> #[trigger] r@[i].start <= until,
    {
        let occ_day = day_of_instant(occ.start);
        if occ.start > until || occ_day == MAX_DAY {
            return Vec::new();
        }
        proof {
            lemma_next_day_after(occ.start as int);
        }
        let mut iter = DayFilterDaysIter::new(&self.sched.days, occ_day + 1);
        let mut occs: Vec<Occ> = Vec::new();
        let ghost mut its: Seq<DayFilterDaysIter> = seq![iter];
        let ghost mut days: Seq<int> = seq![];
        loop
            invariant_except_break
                forall|i: int| 0 <= i < occs@.len() ==> #[trigger] occs@[i].start <= until,
                its.last() == iter,
            invariant
                event_sched_wf(*self.sched),
                iter.wf(),
                iter.cursor() >= occ_day + 1,
                occ_day == day_of(occ.start),
                occ.start < day_start_spec(occ_day + 1),
                forall|i: int| 0 <= i < occs@.len() ==> is_new_occ(#[trigger] occs@[i]),
                forall|i: int| 0 <= i < occs@.len() ==> #[trigger] occs@[i].start == occs@[i].end,
                forall|i: int|
                    0 <= i < occs@.len() ==> #[trigger] day_of(occs@[i].start) > day_of(occ.start),
                forall|i: int| 0 <= i < occs@.len() ==> #[trigger] occs@[i].start > occ.start,
                forall|i: int|
                    0 <= i < occs@.len() ==> #[trigger] day_of(occs@[i].start) < iter.cursor(),
                forall|i: int|
                    0 <= i < occs@.len() ==> #[trigger] occs@[i].start < day_start_spec(
                        iter.cursor(),
                    ),
                ascending(occs@),
                fresh(its[0], self.sched.days, occ_day + 1),
                produces(its, days),
                days.len() == occs@.len(),
                forall|i: int|
                    0 <= i < occs@.len() ==> #[trigger] occs@[i].start == event_instant(
                        *self.sched,
                        days[i],
                    ),
            ensures
                forall|i: int| 0 <= i < occs@.len() ==> is_new_occ(#[trigger] occs@[i]),
                forall|i: int| 0 <= i < occs@.len() ==> #[trigger] occs@[i].start == occs@[i].end,
                forall|i: int|
                    0 <= i < occs@.len() ==> #[trigger] day_of(occs@[i].start) > day_of(occ.start),
                forall|i: int| 0 <= i < occs@.len() ==> #[trigger] occs@[i].start > occ.start,
                ascending(occs@),
                forall|i: int| 0 <= i < occs@.len() - 1 ==> #[trigger] occs@[i].start <= until,
                event_trace(*self.sched, occ_day + 1, until, occs@, its, days),
            decreases MAX_DAY - iter.cursor(),
        {
            let next = iter.next();
            match next {
                None => {
                    assert(steps_to(its.last(), None, iter));
                    break;
                },
                Some(day) => {
                    let o = self.for_day(day);
                    proof {
                        lemma_event_instant_bounds(*self.sched, day as int);
                        lemma_day_start_monotone(occ_day + 1, day as int);
                        lemma_day_start_monotone(day as int + 1, iter.cursor());
                        lemma_produces_push(its, days, day, iter);
                        its = its.push(iter);
                        days = days.push(day as int);
                    }
                    occs.push(o);
                    if o.start > until {
                        break;
                    }
                },
            }
        }
        occs
    }

    /// Produce the occurrence on the first day the filter gives from the
    /// schedule's initial day that is not before `now`'s day.
    pub fn generate_first(&self, now: OccDate) -> (r: Option<Occ>)
        requires
            event_sched_wf(*self.sched),
        ensures
            event_first(*self.sched, now, r),
            exists|its: Seq<DayFilterDaysIter>, days: Seq<int>|
                #[trigger] first_event_trace(*self.sched, day_of(now), r, its, days),
            r matches Some(o) ==> is_new_occ(o) && o.start == o.end && day_of(o.start) >= day_of(
                now,
            ) && day_of(o.start) >= self.sched.initial_day,
    {
        let today = day_of_instant(now);
        let mut iter = DayFilterDaysIter::new(&self.sched.days, self.sched.initial_day);
        let ghost mut its: Seq<DayFilterDaysIter> = seq![iter];
        let ghost mut days: Seq<int> = seq![];
        loop
            invariant
                event_sched_wf(*self.sched),
                iter.wf(),
                iter.start_day() == self.sched.initial_day,
                today == day_of(now),
                fresh(its[0], self.sched.days, self.sched.initial_day as int),
                produces(its, days),
                its.last() == iter,
                forall|i: int| 0 <= i < days.len() ==> #[trigger] days[i] < today,
            decreases MAX_DAY - iter.cursor(),
        {
            let next = iter.next();
            match next {
                None => {
                    assert(steps_to(its.last(), None, iter));
                    assert(first_event_trace(*self.sched, today as int, None, its, days));
                    return None;
                },
                Some(day) => {
                    proof {
                        lemma_produces_push(its, days, day, iter);
                        its = its.push(iter);
                        days = days.push(day as int);
                    }
                    if day >= today {
                        let o = self.for_day(day);
                        assert(first_event_trace(*self.sched, today as int, Some(o), its, days));
                        return Some(o);
                    }
                },
            }
        }
    }
}

/// Whether `occs` are the events on the days `days` that an iteration of the
/// schedule's filter from `from_day`, in states `its`, produces, up to and
/// including the first after `until`; where there is no such one, the
/// iteration ends after the last.
pub open spec fn event_trace(
    sched: EventSched,
    from_day: int,
    until: OccDate,
    occs: Seq<Occ>,
    its: Seq<DayFilterDaysIter>,
    days: Seq<int>,
) -> bool {
    &&& fresh(its[0], sched.days, from_day)
    &&& produces(its, days)
    &&& days.len() == occs.len()
    &&& forall|i: int| 0 <= i < occs.len() ==> #[trigger] occs[i].start == event_instant(sched, days[i])
    &&& forall|i: int| 0 <= i < occs.len() - 1 ==> #[trigger] occs[i].start <= until
    &&& (occs.len() > 0 && occs.last().start > until) || ends_at(its.last())
}

/// Whether `r` is the event on the first day not before `today` that an
/// iteration of the schedule's filter from its initial day, in states `its`,
/// produces after the days `days`; `None` where the iteration ends before
/// reaching `today`.
pub open spec fn first_event_trace(
    sched: EventSched,
    today: int,
    r: Option<Occ>,
    its: Seq<DayFilterDaysIter>,
    days: Seq<int>,
) -> bool {
    &&& fresh(its[0], sched.days, sched.initial_day as int)
    &&& produces(its, days)
    &&& match r {
        Some(o) => {
            &&& days.len() > 0
            &&& forall|i: int| 0 <= i < days.len() - 1 ==> #[trigger] days[i] < today
            &&& days.last() >= today
            &&& o == Occ {
                active: true,
                start: event_instant(sched, days.last()) as i64,
                end: event_instant(sched, days.last()) as i64,
                task_completion_progress: 0,
            }
        },
        None => {
            &&& forall|i: int| 0 <= i < days.len() ==> #[trigger] days[i] < today
            &&& ends_at(its.last())
        },
    }
}

/// Generate occurrences for
/// [progress tasks](crate::types::ItemType::ProgressTask).
pub struct ProgressTaskOccGen<'a> {
    pub sched: &'a ProgressTaskSched,
}

impl<'a> ProgressTaskOccGen<'a> {
    /// Produce the periods that follow `occ`, starting on the day it ends, up
    /// to and including the first one ending on a day after `until`'s day.
    ///
    /// Nothing is produced where `occ` ends on a day after `until`'s day.
    pub fn generate_after(&self, occ: &Occ, until: OccDate) -> (r: Vec<Occ>)
        ensures
            progress_after(*self.sched, *occ, until, r@),
            reaches_past(Sched::ProgressTask(*self.sched), *occ, until) ==> r@.len() == 0,
            forall|i: int| 0 <= i < r@.len() ==> is_new_occ(#[trigger] r@[i]),
            forall|i: int| 0 <= i < r@.len() ==> #[trigger] r@[i].start < r@[i].end,
            r@.len() > 0 ==> r@[0].start == day_start_spec(day_of(occ.end)),
            contiguous(r@),
            forall|i: int|
                0 <= i < r@.len() ==> #[trigger] r@[i].end == day_start_spec(
                    period_end_spec(*self.sched, day_of(r@[i].start)),
                ),
            forall|i: int| 0 <= i < r@.len() - 1 ==> #[trigger] day_of(r@[i].end) <= day_of(until),
            !reaches_past(Sched::ProgressTask(*self.sched), *occ, until) ==> if r@.len() == 0 {
                periods_stop(*self.sched, day_of(occ.end))
            } else {
                day_of(r@.last().end) > day_of(until) || periods_stop(
                    *self.sched,
                    day_of(r@.last().end),
                )
            },
    {
        let start_day = day_of_instant(occ.end);
        let end_day = day_of_instant(until);
        if start_day > end_day || start_day == MAX_DAY {
            return Vec::new();
        }
        let mut iter = ProgressTaskPeriodsIter::continuing(self.sched, start_day);
        let mut occs: Vec<Occ> = Vec::new();
        loop
            invariant_except_break
                forall|i: int|
                    0 <= i < occs@.len() ==> #[trigger] day_of(occs@[i].end) <= day_of(until),
                !iter.is_done(),
            invariant
                iter.wf(),
                iter.started(),
                iter.sched() == *self.sched,
                start_day == day_of(occ.end),
                end_day == day_of(until),
                occs@.len() == 0 ==> iter.cursor() == start_day,
                occs@.len() > 0 ==> occs@[occs@.len() - 1].end == day_start_spec(iter.cursor()),
                occs@.len() > 0 ==> day_of(occs@[occs@.len() - 1].end) == iter.cursor(),
                in_range(iter.cursor()),
                forall|i: int| 0 <= i < occs@.len() ==> is_new_occ(#[trigger] occs@[i]),
                forall|i: int| 0 <= i < occs@.len() ==> #[trigger] occs@[i].start < occs@[i].end,
                occs@.len() > 0 ==> occs@[0].start == day_start_spec(start_day as int),
                contiguous(occs@),
                forall|i: int|
                    0 <= i < occs@.len() ==> #[trigger] occs@[i].end == day_start_spec(
                        period_end_spec(*self.sched, day_of(occs@[i].start)),
                    ),
            ensures
                forall|i: int| 0 <= i < occs@.len() ==> is_new_occ(#[trigger] occs@[i]),
                forall|i: int| 0 <= i < occs@.len() ==> #[trigger] occs@[i].start < occs@[i].end,
                occs@.len() > 0 ==> occs@[0].start == day_start_spec(start_day as int),
                contiguous(occs@),
                forall|i: int|
                    0 <= i < occs@.len() ==> #[trigger] occs@[i].end == day_start_spec(
                        period_end_spec(*self.sched, day_of(occs@[i].start)),
                    ),
                forall|i: int|
                    0 <= i < occs@.len() - 1 ==> #[trigger] day_of(occs@[i].end) <= day_of(until),
                if occs@.len() == 0 {
                    periods_stop(*self.sched, start_day as int)
                } else {
                    day_of(occs@.last().end) > day_of(until) || periods_stop(
                        *self.sched,
                        day_of(occs@.last().end),
                    )
                },
            decreases MAX_DAY - iter.cursor(),
        {
            match iter.next() {
                None => break,
                Some((s, e)) => {
                    let o = new_occ(day_to_occ_date(s), day_to_occ_date(e));
                    proof {
                        lemma_day_of_within(s as int, 0);
                        lemma_day_of_within(e as int, 0);
                        lemma_day_start_strict(s as int, e as int);
                    }
                    occs.push(o);
                    if e > end_day {
                        break;
                    }
                },
            }
        }
        occs
    }

    /// Produce the period containing `now`'s day.
    pub fn generate_first(&self, now: OccDate) -> (r: Option<Occ>)
        ensures
            progress_first(*self.sched, now, r),
            ({
                let s = align_spec(*self.sched, day_of(now));
                let e = period_end_spec(*self.sched, s);
                &&& s < e < MAX_DAY ==> r == Some(
                    Occ {
                        active: true,
                        start: day_start_spec(s) as i64,
                        end: day_start_spec(e) as i64,
                        task_completion_progress: 0,
                    },
                )
                &&& !(s < e < MAX_DAY) ==> r is None
            }),
    {
        let mut iter = ProgressTaskPeriodsIter::new(self.sched, day_of_instant(now));
        match iter.next() {
            Some((s, e)) => Some(new_occ(day_to_occ_date(s), day_to_occ_date(e))),
            None => None,
        }
    }
}

/// Generate occurrences for
/// [deadline tasks](crate::types::ItemType::DeadlineTask).
pub struct DeadlineTaskOccGen<'a> {
    pub sched: &'a DeadlineTaskSched,
}

/// `t + d`, or the last instant where that would overflow.
pub open spec fn add_secs_spec(t: int, d: int) -> int {
    if t + d > i64::MAX {
        i64::MAX as int
    } else {
        t + d
    }
}

/// `t + d`, or the last instant where that would overflow.
pub fn add_secs(t: OccDate, d: u64) -> (r: OccDate)
    ensures
        r == add_secs_spec(t as int, d as int),
{
    if d > (i64::MAX as i128 - t as i128) as u64 {
        i64::MAX
    } else {
        (t as i128 + d as i128) as i64
    }
}

impl<'a> DeadlineTaskOccGen<'a> {
    /// Produce occurrences of the schedule's duration, each starting where the
    /// one before ended and the first where `occ` ends, while the start is
    /// before `until`.
    ///
    /// Nothing is produced for a zero duration.
    pub fn generate_after(&self, occ: &Occ, until: OccDate) -> (r: Vec<Occ>)
        ensures
            deadline_after(*self.sched, *occ, until, r@),
            reaches_past(Sched::DeadlineTask(*self.sched), *occ, until) ==> r@.len() == 0,
            forall|i: int| 0 <= i < r@.len() ==> is_new_occ(#[trigger] r@[i]),
            r@.len() > 0 ==> r@[0].start == occ.end,
            contiguous(r@),
            forall|i: int|
                0 <= i < r@.len() ==> #[trigger] r@[i].end == add_secs_spec(
                    r@[i].start as int,
                    self.sched.duration as int,
                ),
            forall|i: int| 0 <= i < r@.len() ==> #[trigger] r@[i].start < r@[i].end,
            forall|i: int| 0 <= i < r@.len() ==> #[trigger] r@[i].start < until,
            self.sched.duration > 0 && occ.end < until ==> r@.len() > 0,
            r@.len() > 0 && r@[r@.len() - 1].end < i64::MAX ==> r@[r@.len() - 1].end >= until,
    {
        let duration = self.sched.duration;
        let mut occs: Vec<Occ> = Vec::new();
        if duration == 0 {
            return occs;
        }
        let mut start = occ.end;
        while start < until
            invariant
                duration == self.sched.duration,
                duration > 0,
                occs@.len() == 0 ==> start == occ.end,
                occs@.len() > 0 ==> occs@[occs@.len() - 1].end == start,
                occs@.len() > 0 ==> occs@[0].start == occ.end,
                forall|i: int| 0 <= i < occs@.len() ==> is_new_occ(#[trigger] occs@[i]),
                contiguous(occs@),
                forall|i: int|
                    0 <= i < occs@.len() ==> #[trigger] occs@[i].end == add_secs_spec(
                        occs@[i].start as int,
                        duration as int,
                    ),
                forall|i: int| 0 <= i < occs@.len() ==> #[trigger] occs@[i].start < occs@[i].end,
                forall|i: int| 0 <= i < occs@.len() ==> #[trigger] occs@[i].start < until,
            ensures
                occs@.len() > 0 ==> occs@[0].start == occ.end,
                forall|i: int| 0 <= i < occs@.len() ==> is_new_occ(#[trigger] occs@[i]),
                contiguous(occs@),
                forall|i: int|
                    0 <= i < occs@.len() ==> #[trigger] occs@[i].end == add_secs_spec(
                        occs@[i].start as int,
                        duration as int,
                    ),
                forall|i: int| 0 <= i < occs@.len() ==> #[trigger] occs@[i].start < occs@[i].end,
                forall|i: int| 0 <= i < occs@.len() ==> #[trigger] occs@[i].start < until,
                occ.end < until ==> occs@.len() > 0,
                occs@.len() > 0 && occs@[occs@.len() - 1].end < i64::MAX ==> occs@[occs@.len()
                    - 1].end >= until,
            decreases i64::MAX - start,
        {
            let end = add_secs(start, duration);
            if end == start {
                break;
            }
            assert(end > start);
            occs.push(new_occ(start, end));
            start = end;
        }
        occs
    }

    /// Produce the occurrence from `now` for the schedule's duration.
    pub fn generate_first(&self, now: OccDate) -> (r: Option<Occ>)
        ensures
            deadline_first(*self.sched, now, r),
            r == Some(
                Occ {
                    active: true,
                    start: now,
                    end: add_secs_spec(now as int, self.sched.duration as int) as i64,
                    task_completion_progress: 0,
                },
            ),
    {
        Some(new_occ(now, add_secs(now, self.sched.duration)))
    }
}

/// Occurrences that each start where the one before ended, and end after
/// they start, start in ascending order.
pub proof fn lemma_contiguous_ascending(occs: Seq<Occ>)
    requires
        contiguous(occs),
        forall|i: int| 0 <= i < occs.len() ==> #[trigger] occs[i].start < occs[i].end,
    ensures
        ascending(occs),
{
    assert forall|i: int, j: int| 0 <= i < j < occs.len() implies occs[i].start
        < occs[j].start by {
        lemma_contiguous_step(occs, i, j);
    }
}

proof fn lemma_contiguous_step(occs: Seq<Occ>, i: int, j: int)
    requires
        contiguous(occs),
        forall|k: int| 0 <= k < occs.len() ==> #[trigger] occs[k].start < occs[k].end,
        0 <= i < j < occs.len(),
    ensures
        occs[i].start < occs[j].start,
    decreases j - i,
{
    assert(occs[j - 1].end == occs[j].start);
    assert(occs[j - 1].start < occs[j - 1].end);
    if i < j - 1 {
        lemma_contiguous_step(occs, i, j - 1);
    }
}

/// An instant at midnight (of a supported day) is the start of the day it
/// falls on, so progress-task occurrences generated after an occurrence that
/// ends at midnight start exactly where it ended.
pub proof fn lemma_midnight_is_day_start(t: OccDate)
    requires
        t % 86400 == 0,
        MIN_INSTANT <= t <= MAX_INSTANT,
    ensures
        day_start_spec(day_of(t)) == t,
{
    vstd::arithmetic::div_mod::lemma_fundamental_div_mod(t as int, 86400);
    let q = t / 86400;
    assert(t == 86400 * q);
    assert(MIN_DAY <= q + 719_163 <= MAX_DAY) by (nonlinear_arith)
        requires
            t == 86400 * q,
            -8_334_601_228_800 <= t <= 8_210_266_876_799,
    ;
}

proof fn lemma_day_of_within(day: int, t: int)
    requires
        in_range(day),
        0 <= t < 86400,
    ensures
        day_of_instant_spec(day_start_spec(day) + t) == day,
{
    let x = day_start_spec(day) + t;
    assert(x == 86400 * (day - 719_163) + t);
    vstd::arithmetic::div_mod::lemma_div_multiples_vanish_fancy(day - 719_163, t, 86400);
}

proof fn lemma_next_day_after(t: int)
    requires
        day_of_instant_spec(t) < MAX_DAY,
    ensures
        t < day_start_spec(day_of_instant_spec(t) + 1),
{
    vstd::arithmetic::div_mod::lemma_fundamental_div_mod(t, 86400);
    vstd::arithmetic::div_mod::lemma_mod_bound(t, 86400);
    let q = t / 86400;
    assert(t < 86400 * (q + 1));
    if q + 719_163 < MIN_DAY {
        assert(day_start_spec(MIN_DAY + 1) == 86400 * (MIN_DAY + 1 - 719_163));
        assert(86400 * (q + 1) <= 86400 * (MIN_DAY + 1 - 719_163)) by (nonlinear_arith)
            requires
                q + 1 <= MIN_DAY - 719_163 + 1,
        ;
    } else {
        assert(day_start_spec(q + 719_163 + 1) == 86400 * (q + 1));
    }
}

proof fn lemma_day_start_monotone(a: int, b: int)
    requires
        a <= b,
    ensures
        day_start_spec(a) <= day_start_spec(b),
{
    assert((a - 719_163) * 86400 <= (b - 719_163) * 86400) by (nonlinear_arith)
        requires
            a <= b,
    ;
}

proof fn lemma_day_start_strict(a: int, b: int)
    requires
        a < b,
    ensures
        day_start_spec(a) + 86400 <= day_start_spec(b),
{
    assert((a - 719_163) * 86400 + 86400 <= (b - 719_163) * 86400) by (nonlinear_arith)
        requires
            a < b,
    ;
}

proof fn lemma_event_instant_bounds(sched: EventSched, day: int)
    requires
        event_sched_wf(sched),
    ensures
        day_start_spec(day) <= event_instant(sched, day) < day_start_spec(day + 1),
{
    assert(day_start_spec(day + 1) == day_start_spec(day) + 86400) by (nonlinear_arith);
}

} // verus!
