//! General high-level utilities: which occurrences an item needs next, which
//! one is its current occurrence, and when alerts for it are due.
use vstd::prelude::*;
use crate::db::StoredOcc;
use crate::types::{Occ, OccDate, Sched};
use self::config::ResolvedConfig;
use self::dates::{day_of_instant, MAX_DAY};
use self::occgen::{
    ascending, day_of, deadline_after, deadline_first, event_after, event_first, is_new_occ,
    progress_after, progress_first, reaches_past, sched_wf, DeadlineTaskOccGen, EventOccGen,
    ProgressTaskOccGen,
};

pub mod dates;
pub mod sched;
pub mod occgen;
pub mod config;
pub mod progress;

verus! {

/// Whether `occ` is valid as an item's "current occurrence" at `date`: for
/// events the next one, for tasks the one containing `date`.
pub open spec fn is_current(date: OccDate, sched: Sched, occ: Occ) -> bool {
    match sched {
        Sched::Event(_) => occ.start >= date,
        _ => occ.start <= date && date <= occ.end,
    }
}

/// Determine whether `occ` is valid as an item's "current occurrence", relative
/// to the given `date`.
pub fn occ_is_current(date: OccDate, sched: &Sched, occ: &Occ) -> (r: bool)
    ensures
        r == is_current(date, *sched, *occ),
{
    match sched {
        Sched::Event(_) => occ.start >= date,
        _ => occ.start <= date && occ.end >= date,
    }
}

/// Whether `occ` already reaches past `until` for the schedule, so that
/// nothing would be generated after it.
pub fn occ_reaches_past(sched: &Sched, occ: &Occ, until: OccDate) -> (r: bool)
    ensures
        r == reaches_past(*sched, *occ, until),
{
    match sched {
        Sched::Event(_) => occ.start > until || day_of_instant(occ.start) == MAX_DAY,
        Sched::ProgressTask(_) => {
            let d = day_of_instant(occ.end);
            d > day_of_instant(until) || d == MAX_DAY
        },
        Sched::DeadlineTask(s) => occ.end >= until || s.duration == 0,
    }
}

/// The occurrences to create for an item with schedule `sched`, given its
/// latest stored occurrence (if any), so that it has one that is current at
/// `date` where its schedule allows: the occurrences after `latest` up to the
/// first reaching past `date`, or the first occurrence for an item without
/// any.
///
/// Also tells whether the last occurrence (created or `latest`) reaches past
/// `date`, in which case asking again, with that occurrence as the latest,
/// creates nothing.
pub fn new_item_occs(date: OccDate, sched: &Sched, latest: &Option<Occ>) -> (r: (Vec<Occ>, bool))
    requires
        sched_wf(*sched),
    ensures
        forall|i: int| 0 <= i < r.0@.len() ==> is_new_occ(#[trigger] r.0@[i]),
        ascending(r.0@),
        *latest is None ==> r.0@.len() <= 1,
        *latest matches Some(o) && reaches_past(*sched, o, date) ==> r.0@.len() == 0,
        *latest matches Some(o) ==> forall|i: int|
            0 <= i < r.0@.len() ==> #[trigger] r.0@[i].start >= match sched {
                Sched::Event(_) => o.start + 1,
                Sched::ProgressTask(_) => crate::util::dates::day_start_spec(day_of(o.end)),
                Sched::DeadlineTask(_) => o.end as int,
            },
        r.0@.len() > 0 ==> r.1 == reaches_past(*sched, r.0@[r.0@.len() - 1], date),
        match *latest {
            Some(o) => match *sched {
                Sched::Event(e) => event_after(e, o, date, r.0@),
                Sched::ProgressTask(p) => progress_after(p, o, date, r.0@),
                Sched::DeadlineTask(d) => deadline_after(d, o, date, r.0@),
            },
            None => {
                let first = if r.0@.len() > 0 {
                    Some(r.0@[0])
                } else {
                    None
                };
                match *sched {
                    Sched::Event(e) => event_first(e, date, first),
                    Sched::ProgressTask(p) => progress_first(p, date, first),
                    Sched::DeadlineTask(d) => deadline_first(d, date, first),
                }
            },
        },
        r.0@.len() == 0 ==> r.1 == (*latest matches Some(o) && reaches_past(*sched, o, date)),
{
    let occs: Vec<Occ> = match latest {
        Some(o) => match sched {
            Sched::Event(e) => EventOccGen { sched: e }.generate_after(o, date),
            Sched::ProgressTask(p) => {
                let v = ProgressTaskOccGen { sched: p }.generate_after(o, date);
                proof {
                    occgen::lemma_contiguous_ascending(v@);
                }
                v
            },
            Sched::DeadlineTask(d) => {
                let v = DeadlineTaskOccGen { sched: d }.generate_after(o, date);
                proof {
                    occgen::lemma_contiguous_ascending(v@);
                }
                v
            },
        },
        None => {
            let first = match sched {
                Sched::Event(e) => EventOccGen { sched: e }.generate_first(date),
                Sched::ProgressTask(p) => ProgressTaskOccGen { sched: p }.generate_first(date),
                Sched::DeadlineTask(d) => DeadlineTaskOccGen { sched: d }.generate_first(date),
            };
            match first {
                Some(f) => vec![f],
                None => Vec::new(),
            }
        },
    };
    let done = if occs.len() > 0 {
        occ_reaches_past(sched, &occs[occs.len() - 1], date)
    } else {
        match latest {
            Some(o) => occ_reaches_past(sched, o, date),
            None => false,
        }
    };
    (occs, done)
}

/// The "current occurrence" of an item at `date`: its last newly created
/// occurrence, or where none was created its latest stored one, provided that
/// is current (see [`is_current`]).
pub fn current_occ(date: OccDate, sched: &Sched, created: Vec<StoredOcc>, latest: Option<
    StoredOcc,
>) -> (r: Option<StoredOcc>)
    ensures
        ({
            let candidate = if created@.len() > 0 {
                Some(created@[created@.len() - 1])
            } else {
                latest
            };
            match candidate {
                Some(c) => if is_current(date, *sched, c.occ) {
                    r == Some(c)
                } else {
                    r is None
                },
                None => r is None,
            }
        }),
{
    let mut created = created;
    let candidate = if created.len() > 0 {
        created.pop()
    } else {
        latest
    };
    match candidate {
        Some(c) => {
            if occ_is_current(date, sched, &c.occ) {
                Some(c)
            } else {
                None
            }
        },
        None => None,
    }
}

/// The alert offset of a config, zero where absent.
pub open spec fn alert_secs(config: ResolvedConfig) -> int {
    match config.resolved_config.occ_alert {
        Some(a) => a as int,
        None => 0,
    }
}

/// Determine whether `date` is in `occ`'s alert period, according to the
/// `config`: from the alert offset before the occurrence's end, up to its end.
pub fn in_alert_period(occ: &Occ, config: &ResolvedConfig, date: OccDate) -> (r: bool)
    ensures
        r == (date >= occ.end - alert_secs(*config) && date < occ.end),
{
    let alert: u64 = match config.resolved_config.occ_alert {
        Some(a) => a,
        None => 0,
    };
    let alert_start: i128 = occ.end as i128 - alert as i128;
    (date as i128) >= alert_start && date < occ.end
}

} // verus!
