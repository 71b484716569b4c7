use dunsumday::types::{DayFilter, ProgressTaskSched, Weekday};
use dunsumday::util::dates::{
    add_months, day_from_ymd, day_of_instant, day_start, days_in_month, first_of_month,
    forwards_to_dow, subtract_months, weekday, with_dom_saturating, with_month_dom_saturating,
    ymd, MAX_DAY, MIN_DAY,
};
use dunsumday::util::sched::{DayFilterDaysIter, ProgressTaskPeriodsIter};

fn day(y: i32, m: u32, d: u32) -> i32 {
    day_from_ymd(y, m, d).unwrap()
}

fn take_days(filter: &DayFilter, start: i32, n: usize) -> Vec<i32> {
    let mut it = DayFilterDaysIter::new(filter, start);
    let mut out = Vec::new();
    while out.len() < n {
        match it.next() {
            Some(d) => out.push(d),
            None => break,
        }
    }
    out
}

fn take_periods(sched: &ProgressTaskSched, start: i32, n: usize) -> Vec<(i32, i32)> {
    let mut it = ProgressTaskPeriodsIter::new(sched, start);
    let mut out = Vec::new();
    while out.len() < n {
        match it.next() {
            Some(p) => out.push(p),
            None => break,
        }
    }
    out
}

fn assert_ascending_from(days: &[i32], start: i32) {
    for (i, d) in days.iter().enumerate() {
        assert!(*d >= start);
        if i > 0 {
            assert!(days[i - 1] < *d);
        }
    }
}

#[test]
fn day_numbers_round_trip() {
    assert_eq!(day(1, 1, 1), 1);
    assert_eq!(day(1970, 1, 1), 719_163);
    assert_eq!(ymd(day(2024, 2, 29)), (2024, 2, 29));
    assert_eq!(day_from_ymd(2023, 2, 29), None);
    assert_eq!(day_from_ymd(2024, 13, 1), None);
    assert_eq!(ymd(MAX_DAY), (262_142, 12, 31));
    assert_eq!(ymd(MIN_DAY), (-262_143, 1, 1));
}

#[test]
fn weekday_of_known_dates() {
    assert_eq!(weekday(day(2024, 1, 2)), Weekday::Tue);
    assert_eq!(weekday(day(1970, 1, 1)), Weekday::Thu);
    assert_eq!(weekday(day(1, 1, 1)), Weekday::Mon);
    assert_eq!(weekday(day(2024, 1, 7)), Weekday::Sun);
}

#[test]
fn month_lengths() {
    assert_eq!(days_in_month(day(2024, 2, 10)), 29);
    assert_eq!(days_in_month(day(2023, 2, 10)), 28);
    assert_eq!(days_in_month(day(1900, 2, 1)), 28);
    assert_eq!(days_in_month(day(2000, 2, 1)), 29);
    assert_eq!(days_in_month(day(2024, 4, 30)), 30);
    assert_eq!(days_in_month(day(2024, 12, 1)), 31);
}

#[test]
fn saturating_date_rules() {
    assert_eq!(with_dom_saturating(day(2024, 2, 3), 31), day(2024, 2, 29));
    assert_eq!(with_dom_saturating(day(2024, 3, 3), 15), day(2024, 3, 15));
    assert_eq!(with_month_dom_saturating(day(2023, 1, 31), 2, 30), day(2023, 2, 28));
    assert_eq!(add_months(day(2024, 1, 31), 1), day(2024, 2, 29));
    assert_eq!(add_months(day(2022, 7, 31), 2), day(2022, 9, 30));
    assert_eq!(add_months(MAX_DAY, 1), MAX_DAY);
    assert_eq!(subtract_months(day(2024, 3, 31), 1), day(2024, 2, 29));
    assert_eq!(subtract_months(MIN_DAY, 1), MIN_DAY);
    assert_eq!(first_of_month(day(2024, 5, 17)), day(2024, 5, 1));
}

#[test]
fn forwards_to_weekday() {
    let tue = day(2024, 1, 2);
    assert_eq!(forwards_to_dow(tue, Weekday::Tue), tue);
    assert_eq!(forwards_to_dow(tue, Weekday::Mon), day(2024, 1, 8));
    assert_eq!(forwards_to_dow(tue, Weekday::Sun), day(2024, 1, 7));
}

#[test]
fn instants_and_days() {
    assert_eq!(day_start(day(1970, 1, 2)), 86_400);
    assert_eq!(day_of_instant(86_399), day(1970, 1, 1));
    assert_eq!(day_of_instant(-1), day(1969, 12, 31));
    assert_eq!(day_of_instant(i64::MAX), MAX_DAY);
    assert_eq!(day_of_instant(i64::MIN), MIN_DAY);
}

#[test]
fn dom_month_end_saturation() {
    let f = DayFilter::Dom { days: vec![31], months_apart: 1 };
    let days = take_days(&f, day(2024, 1, 1), 4);
    assert_eq!(
        days,
        vec![day(2024, 1, 31), day(2024, 2, 29), day(2024, 3, 31), day(2024, 4, 30)]
    );
}

#[test]
fn dom_coalesces_saturated_duplicates() {
    let f = DayFilter::Dom { days: vec![30, 31, 29, 15], months_apart: 1 };
    let days = take_days(&f, day(2023, 2, 1), 4);
    assert_eq!(
        days,
        vec![day(2023, 2, 15), day(2023, 2, 28), day(2023, 3, 15), day(2023, 3, 29)]
    );
}

#[test]
fn dom_every_other_month() {
    let f = DayFilter::Dom { days: vec![10], months_apart: 2 };
    let days = take_days(&f, day(2024, 1, 20), 3);
    assert_eq!(days, vec![day(2024, 3, 10), day(2024, 5, 10), day(2024, 7, 10)]);
}

#[test]
fn dom_empty_yields_nothing() {
    let f = DayFilter::Dom { days: vec![], months_apart: 1 };
    assert!(take_days(&f, day(2024, 1, 1), 3).is_empty());
}

#[test]
fn day_filter_every_n_days() {
    let f = DayFilter::Day { days_apart: 3 };
    let s = day(2024, 1, 1);
    assert_eq!(take_days(&f, s, 3), vec![s, s + 3, s + 6]);
}

#[test]
fn day_filter_zero_stride_yields_once() {
    let f = DayFilter::Day { days_apart: 0 };
    let s = day(2024, 1, 1);
    assert_eq!(take_days(&f, s, 3), vec![s]);
}

#[test]
fn dow_biweekly() {
    let f = DayFilter::Dow { day: Weekday::Tue, weeks_apart: 2 };
    let days = take_days(&f, day(2024, 1, 2), 3);
    assert_eq!(days, vec![day(2024, 1, 2), day(2024, 1, 16), day(2024, 1, 30)]);
}

#[test]
fn dows_each_listed_weekday() {
    let f = DayFilter::Dows { days: vec![Weekday::Fri, Weekday::Mon] };
    let days = take_days(&f, day(2024, 1, 2), 4);
    assert_eq!(days, vec![day(2024, 1, 5), day(2024, 1, 8), day(2024, 1, 12), day(2024, 1, 15)]);
}

#[test]
fn dows_empty_yields_nothing() {
    let f = DayFilter::Dows { days: vec![] };
    assert!(take_days(&f, day(2024, 1, 2), 2).is_empty());
}

#[test]
fn wom_second_and_fourth_tuesday() {
    let f = DayFilter::Wom { dow: Weekday::Tue, weeks: vec![2, 4], months_apart: 2 };
    let days = take_days(&f, day(2024, 1, 1), 4);
    assert_eq!(
        days,
        vec![day(2024, 1, 9), day(2024, 1, 23), day(2024, 3, 12), day(2024, 3, 26)]
    );
}

#[test]
fn wom_weeks_beyond_fifth_yield_nothing() {
    let f = DayFilter::Wom { dow: Weekday::Tue, weeks: vec![6, 7], months_apart: 1 };
    assert!(take_days(&f, day(2024, 1, 1), 2).is_empty());
}

#[test]
fn doy_yearly() {
    let f = DayFilter::Doy { dom: 29, month: 2, years_apart: 1 };
    let days = take_days(&f, day(2023, 6, 1), 3);
    assert_eq!(days, vec![day(2024, 2, 29), day(2025, 2, 28), day(2026, 2, 28)]);
}

#[test]
fn doy_includes_start_day() {
    let f = DayFilter::Doy { dom: 1, month: 6, years_apart: 2 };
    let days = take_days(&f, day(2023, 6, 1), 2);
    assert_eq!(days, vec![day(2023, 6, 1), day(2025, 6, 1)]);
}

#[test]
fn date_filter_single_date() {
    let f = DayFilter::Date { dom: 5, month: 3, year: 2024 };
    assert_eq!(take_days(&f, day(2024, 1, 1), 3), vec![day(2024, 3, 5)]);
    assert!(take_days(&f, day(2024, 3, 5), 3).is_empty());
}

#[test]
fn day_filters_ascend_from_start() {
    let start = day(2024, 1, 17);
    let filters = vec![
        DayFilter::Day { days_apart: 5 },
        DayFilter::Dow { day: Weekday::Sat, weeks_apart: 3 },
        DayFilter::Dows { days: vec![Weekday::Wed, Weekday::Sun, Weekday::Wed] },
        DayFilter::Dom { days: vec![1, 17, 31, 17], months_apart: 1 },
        DayFilter::Wom { dow: Weekday::Mon, weeks: vec![1, 5], months_apart: 1 },
        DayFilter::Doy { dom: 31, month: 12, years_apart: 3 },
        DayFilter::Date { dom: 1, month: 1, year: 2030 },
    ];
    for f in &filters {
        let days = take_days(f, start, 20);
        assert!(!days.is_empty());
        assert_ascending_from(&days, start);
    }
}

#[test]
fn day_filter_ends_at_last_supported_day() {
    let f = DayFilter::Day { days_apart: 1 };
    assert_eq!(take_days(&f, MAX_DAY - 2, 5), vec![MAX_DAY - 2, MAX_DAY - 1]);
}

#[test]
fn periods_days() {
    let s = ProgressTaskSched::Days { num: 7 };
    let d = day(2024, 1, 10);
    assert_eq!(take_periods(&s, d, 2), vec![(d, d + 7), (d + 7, d + 14)]);
}

#[test]
fn periods_weeks_align_backwards() {
    let s = ProgressTaskSched::Weeks { num: 1, start_day: Weekday::Mon };
    let p = take_periods(&s, day(2024, 1, 10), 2);
    assert_eq!(
        p,
        vec![(day(2024, 1, 8), day(2024, 1, 15)), (day(2024, 1, 15), day(2024, 1, 22))]
    );
}

#[test]
fn periods_months_align_to_previous_month() {
    let s = ProgressTaskSched::Months { num: 1, start_day: 15 };
    let p = take_periods(&s, day(2024, 3, 10), 2);
    assert_eq!(
        p,
        vec![(day(2024, 2, 15), day(2024, 3, 15)), (day(2024, 3, 15), day(2024, 4, 15))]
    );
}

#[test]
fn periods_months_saturate_to_month_end() {
    let s = ProgressTaskSched::Months { num: 1, start_day: 31 };
    let p = take_periods(&s, day(2024, 1, 31), 3);
    assert_eq!(
        p,
        vec![
            (day(2024, 1, 31), day(2024, 2, 29)),
            (day(2024, 2, 29), day(2024, 3, 31)),
            (day(2024, 3, 31), day(2024, 4, 30)),
        ]
    );
}

#[test]
fn periods_years() {
    let s = ProgressTaskSched::Years { num: 1, start_month: 4, start_dom: 6 };
    let p = take_periods(&s, day(2024, 1, 10), 2);
    assert_eq!(
        p,
        vec![(day(2023, 4, 6), day(2024, 4, 6)), (day(2024, 4, 6), day(2025, 4, 6))]
    );
}

#[test]
fn periods_contiguous_and_first_contains_start() {
    let start = day(2024, 5, 19);
    let scheds = vec![
        ProgressTaskSched::Days { num: 3 },
        ProgressTaskSched::Weeks { num: 2, start_day: Weekday::Thu },
        ProgressTaskSched::Months { num: 1, start_day: 20 },
        ProgressTaskSched::Months { num: 3, start_day: 1 },
        ProgressTaskSched::Years { num: 2, start_month: 1, start_dom: 1 },
    ];
    for s in &scheds {
        let p = take_periods(s, start, 10);
        assert_eq!(p.len(), 10);
        assert!(p[0].0 <= start && start < p[0].1);
        for w in p.windows(2) {
            assert_eq!(w[0].1, w[1].0);
            assert!(w[0].0 < w[0].1);
        }
    }
}

#[test]
fn periods_of_zero_length_end() {
    let s = ProgressTaskSched::Days { num: 0 };
    assert!(take_periods(&s, day(2024, 1, 1), 2).is_empty());
}
