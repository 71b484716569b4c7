use dunsumday::db::StoredOcc;
use dunsumday::types::{
    Config, DayFilter, DeadlineTaskSched, EventSched, Occ, ProgressTaskSched, Sched,
    TaskCompletionConfig, Weekday,
};
use dunsumday::util::config::ResolvedConfig;
use dunsumday::db::ConfigId;
use dunsumday::util::dates::{day_from_ymd, day_start};
use dunsumday::util::occgen::{DeadlineTaskOccGen, EventOccGen, ProgressTaskOccGen};
use dunsumday::util::{current_occ, in_alert_period, new_item_occs, occ_is_current};

const HOUR: i64 = 3600;
const DAY: i64 = 86_400;

fn at(y: i32, m: u32, d: u32, h: i64) -> i64 {
    day_start(day_from_ymd(y, m, d).unwrap()) + h * HOUR
}

fn occ(start: i64, end: i64) -> Occ {
    Occ { active: true, start, end, task_completion_progress: 0 }
}

fn stored(id: &str, o: Occ) -> StoredOcc {
    StoredOcc { id: id.to_string(), occ: o }
}

fn biweekly_tuesday() -> Sched {
    Sched::Event(EventSched {
        initial_day: day_from_ymd(2024, 1, 2).unwrap(),
        days: DayFilter::Dow { day: Weekday::Tue, weeks_apart: 2 },
        time: Some(9 * 3600),
    })
}

#[test]
fn event_first_occurrence_biweekly() {
    let sched = biweekly_tuesday();
    let now = at(2024, 1, 10, 0);
    let (created, done) = new_item_occs(now, &sched, &None);
    let expected = occ(at(2024, 1, 16, 9), at(2024, 1, 16, 9));
    assert_eq!(created, vec![expected]);
    assert!(done);
    let stored_new: Vec<StoredOcc> = created.iter().map(|o| stored("1", *o)).collect();
    let current = current_occ(now, &sched, stored_new, None).unwrap();
    assert_eq!(current.occ, expected);
    assert_eq!(current.id, "1");
}

#[test]
fn event_current_is_idempotent() {
    let sched = biweekly_tuesday();
    let now = at(2024, 1, 10, 0);
    let (created, _) = new_item_occs(now, &sched, &None);
    let latest = created[created.len() - 1];
    let (again, done) = new_item_occs(now, &sched, &Some(latest));
    assert!(again.is_empty());
    assert!(done);
    let current = current_occ(now, &sched, vec![], Some(stored("1", latest))).unwrap();
    assert_eq!(current.occ, latest);
}

#[test]
fn deadline_roll_forward() {
    let sched = Sched::DeadlineTask(DeadlineTaskSched { duration: 3 * DAY as u64 });
    let latest = occ(at(2024, 5, 1, 0), at(2024, 5, 4, 0));
    let now = at(2024, 5, 10, 0);
    let (created, done) = new_item_occs(now, &sched, &Some(latest));
    assert_eq!(
        created,
        vec![occ(at(2024, 5, 4, 0), at(2024, 5, 7, 0)), occ(at(2024, 5, 7, 0), at(2024, 5, 10, 0))]
    );
    assert!(done);
    let stored_new: Vec<StoredOcc> =
        created.iter().enumerate().map(|(i, o)| stored(&i.to_string(), *o)).collect();
    let current = current_occ(now, &sched, stored_new, Some(stored("x", latest))).unwrap();
    assert_eq!(current.occ.end, at(2024, 5, 10, 0));
    assert!(occ_is_current(now, &sched, &current.occ));
    let (again, _) = new_item_occs(now, &sched, &Some(current.occ));
    assert!(again.is_empty());
}

#[test]
fn deadline_generate_after_crosses_horizon() {
    let s = DeadlineTaskSched { duration: 3 * DAY as u64 };
    let g = DeadlineTaskOccGen { sched: &s };
    let latest = occ(at(2024, 5, 1, 0), at(2024, 5, 4, 0));
    let until = at(2024, 5, 10, 1);
    let occs = g.generate_after(&latest, until);
    assert_eq!(occs.len(), 3);
    assert_eq!(occs[2].end, at(2024, 5, 13, 0));
    assert!(occs.iter().all(|o| o.start < until && o.active && o.task_completion_progress == 0));
}

#[test]
fn deadline_zero_duration_generates_nothing_after() {
    let s = DeadlineTaskSched { duration: 0 };
    let g = DeadlineTaskOccGen { sched: &s };
    assert!(g.generate_after(&occ(0, 0), 10 * DAY).is_empty());
    assert_eq!(g.generate_first(5), Some(occ(5, 5)));
}

#[test]
fn deadline_first_occurrence() {
    let s = DeadlineTaskSched { duration: 100 };
    let g = DeadlineTaskOccGen { sched: &s };
    assert_eq!(g.generate_first(1000), Some(occ(1000, 1100)));
}

#[test]
fn event_generate_after_ascends_past_last() {
    let sched = EventSched {
        initial_day: day_from_ymd(2024, 1, 1).unwrap(),
        days: DayFilter::Dows { days: vec![Weekday::Mon, Weekday::Thu] },
        time: Some(18 * 3600),
    };
    let g = EventOccGen { sched: &sched };
    let last = occ(at(2024, 1, 1, 18), at(2024, 1, 1, 18));
    let until = at(2024, 1, 11, 12);
    let occs = g.generate_after(&last, until);
    let starts: Vec<i64> = occs.iter().map(|o| o.start).collect();
    assert_eq!(starts, vec![at(2024, 1, 4, 18), at(2024, 1, 8, 18), at(2024, 1, 11, 18)]);
    for w in occs.windows(2) {
        assert!(w[0].start < w[1].start);
    }
    assert!(occs.iter().all(|o| o.start > last.start && o.start == o.end));
    let beyond = occs.iter().filter(|o| o.start > until).count();
    assert_eq!(beyond, 1);
}

#[test]
fn event_generate_after_nothing_when_past_horizon() {
    let sched = EventSched {
        initial_day: day_from_ymd(2024, 1, 1).unwrap(),
        days: DayFilter::Day { days_apart: 1 },
        time: None,
    };
    let g = EventOccGen { sched: &sched };
    let last = occ(at(2024, 2, 1, 0), at(2024, 2, 1, 0));
    assert!(g.generate_after(&last, at(2024, 1, 20, 0)).is_empty());
}

#[test]
fn event_first_on_or_after_today() {
    let sched = EventSched {
        initial_day: day_from_ymd(2024, 1, 1).unwrap(),
        days: DayFilter::Day { days_apart: 10 },
        time: None,
    };
    let g = EventOccGen { sched: &sched };
    let first = g.generate_first(at(2024, 1, 15, 5)).unwrap();
    assert_eq!(first.start, at(2024, 1, 21, 0));
    let single = EventSched {
        initial_day: day_from_ymd(2024, 1, 1).unwrap(),
        days: DayFilter::Date { dom: 2, month: 1, year: 2024 },
        time: None,
    };
    let g = EventOccGen { sched: &single };
    assert!(g.generate_first(at(2024, 3, 1, 0)).is_none());
}

#[test]
fn progress_task_periods_after_last() {
    let s = ProgressTaskSched::Weeks { num: 1, start_day: Weekday::Mon };
    let g = ProgressTaskOccGen { sched: &s };
    let last = occ(at(2024, 1, 1, 0), at(2024, 1, 8, 0));
    let until = at(2024, 1, 20, 12);
    let occs = g.generate_after(&last, until);
    assert_eq!(
        occs,
        vec![
            occ(at(2024, 1, 8, 0), at(2024, 1, 15, 0)),
            occ(at(2024, 1, 15, 0), at(2024, 1, 22, 0)),
        ]
    );
    assert!(occs[0].start >= last.end);
}

#[test]
fn progress_task_first_contains_now() {
    let s = ProgressTaskSched::Months { num: 1, start_day: 1 };
    let g = ProgressTaskOccGen { sched: &s };
    let now = at(2024, 2, 14, 13);
    assert_eq!(g.generate_first(now), Some(occ(at(2024, 2, 1, 0), at(2024, 3, 1, 0))));
}

#[test]
fn progress_task_current_is_idempotent() {
    let sched = Sched::ProgressTask(ProgressTaskSched::Days { num: 2 });
    let now = at(2024, 6, 5, 10);
    let latest = occ(at(2024, 6, 1, 0), at(2024, 6, 3, 0));
    let (created, done) = new_item_occs(now, &sched, &Some(latest));
    assert_eq!(created.len(), 2);
    assert!(done);
    let last = created[created.len() - 1];
    assert!(occ_is_current(now, &sched, &last));
    let (again, _) = new_item_occs(now, &sched, &Some(last));
    assert!(again.is_empty());
}

#[test]
fn current_occurrence_filters_out_past_task() {
    let sched = Sched::DeadlineTask(DeadlineTaskSched { duration: 10 });
    let latest = stored("7", occ(0, 10));
    assert!(current_occ(100, &sched, vec![], Some(latest)).is_none());
    assert!(current_occ(100, &sched, vec![], None).is_none());
}

fn resolved_with_alert(alert: Option<u64>) -> ResolvedConfig {
    let config = Config {
        occ_alert: alert,
        task_completion_conf: TaskCompletionConfig {
            total: None,
            unit: None,
            excess_past: None,
            excess_future: None,
        },
    };
    ResolvedConfig {
        id: ConfigId::All,
        scope_config: config.clone(),
        resolved_config: config,
        parent: Box::new(None),
    }
}

#[test]
fn alert_period_window() {
    let o = occ(0, 10 * HOUR);
    let cfg = resolved_with_alert(Some(3600));
    assert!(!in_alert_period(&o, &cfg, 9 * HOUR - 1));
    assert!(in_alert_period(&o, &cfg, 9 * HOUR));
    assert!(in_alert_period(&o, &cfg, 10 * HOUR - 1));
    assert!(!in_alert_period(&o, &cfg, 10 * HOUR));
}

#[test]
fn alert_period_absent_is_empty() {
    let o = occ(0, 10 * HOUR);
    let cfg = resolved_with_alert(None);
    assert!(!in_alert_period(&o, &cfg, 10 * HOUR - 1));
    assert!(!in_alert_period(&o, &cfg, 10 * HOUR));
}
