use std::collections::HashMap;
use dunsumday::db::{
    fromdb, get_single_helper, resolve_update_id, todb, ConfigId, Error, StoredConfig,
    StoredItem, StoredOcc, UpdateId,
};
use dunsumday::types::{
    Config, DayFilter, DeadlineTaskSched, EventSched, Item, ItemType, Occ, ProgressTaskSched,
    Sched, TaskCompletionConfig,
};
use dunsumday::util::config::{
    all_scopes, build_config_ids_all, build_config_ids_category, build_config_ids_item,
    build_config_ids_occ, build_config_ids_type, configs_for, resolve_config,
    resolve_config_direct,
};
use dunsumday::util::progress::{
    apply_donations, new_neighbours, progress_window, resolve_occs_progress_using,
    transfer_progress, TaskProgress,
};

const DAY: i64 = 86_400;

fn cfg(
    occ_alert: Option<u64>,
    total: Option<u32>,
    unit: Option<&str>,
    past: Option<u64>,
    future: Option<u64>,
) -> Config {
    Config {
        occ_alert,
        task_completion_conf: TaskCompletionConfig {
            total,
            unit: unit.map(|u| u.to_string()),
            excess_past: past,
            excess_future: future,
        },
    }
}

fn empty_cfg() -> Config {
    cfg(None, None, None, None, None)
}

fn task_item(id: &str, category: Option<&str>) -> StoredItem {
    StoredItem {
        id: id.to_string(),
        created: 0,
        updated: 0,
        item: Item {
            type_: ItemType::ProgressTask,
            active: true,
            category: category.map(|c| c.to_string()),
            name: "run".to_string(),
            desc: None,
            sched: Sched::ProgressTask(ProgressTaskSched::Days { num: 7 }),
        },
    }
}

fn occ(start_day: i64, end_day: i64, progress: u32) -> Occ {
    Occ { active: true, start: start_day * DAY, end: end_day * DAY, task_completion_progress: progress }
}

#[test]
fn scope_chains() {
    assert_eq!(build_config_ids_all(), vec![ConfigId::All]);
    assert_eq!(
        build_config_ids_type(ItemType::Event),
        vec![ConfigId::All, ConfigId::Type(ItemType::Event)]
    );
    let item = task_item("42", Some("sport"));
    assert_eq!(
        build_config_ids_category(&item.item),
        vec![
            ConfigId::All,
            ConfigId::Type(ItemType::ProgressTask),
            ConfigId::Category("sport".to_string()),
        ]
    );
    let plain = task_item("42", None);
    assert_eq!(
        build_config_ids_item(&plain),
        vec![
            ConfigId::All,
            ConfigId::Type(ItemType::ProgressTask),
            ConfigId::Item { id: "42".to_string() },
        ]
    );
    let o = StoredOcc { id: "9".to_string(), occ: occ(0, 7, 0) };
    let ids = build_config_ids_occ(&plain, &o);
    assert_eq!(ids.len(), 4);
    assert_eq!(ids[3], ConfigId::Occ { id: "9".to_string() });
}

#[test]
fn config_merge_child_wins() {
    let parent = cfg(Some(10), Some(5), Some("km"), Some(1), None);
    let child = cfg(None, Some(8), None, None, Some(2));
    assert_eq!(
        resolve_config_direct(&parent, &child),
        cfg(Some(10), Some(8), Some("km"), Some(1), Some(2))
    );
}

#[test]
fn config_inherits_along_chain() {
    let stored = vec![
        StoredConfig { id: ConfigId::All, config: cfg(Some(3600), None, None, None, None) },
        StoredConfig {
            id: ConfigId::Type(ItemType::ProgressTask),
            config: cfg(None, Some(10), None, None, None),
        },
        StoredConfig {
            id: ConfigId::Item { id: "42".to_string() },
            config: cfg(None, None, Some("km"), None, None),
        },
    ];
    let item = task_item("42", None);
    let o = StoredOcc { id: "5".to_string(), occ: occ(0, 7, 0) };
    let ids = vec![build_config_ids_occ(&item, &o)];
    let scopes = all_scopes(&ids);
    assert_eq!(scopes.len(), 4);
    let resolved = configs_for(&ids, &stored);
    assert_eq!(resolved.len(), 1);
    let rc = resolved[0].as_ref().unwrap();
    assert_eq!(rc.resolved_config, cfg(Some(3600), Some(10), Some("km"), None, None));
    assert_eq!(rc.id, ConfigId::Item { id: "42".to_string() });
    // one parent per stored config, not per scope
    let parent = (*rc.parent).as_ref().unwrap();
    let grandparent = (*parent.parent).as_ref().unwrap();
    assert!(grandparent.parent.is_none());
    assert_eq!(grandparent.id, ConfigId::All);
}

#[test]
fn config_lookup_shares_configs_between_objects() {
    let stored = vec![StoredConfig { id: ConfigId::All, config: cfg(Some(1), None, None, None, None) }];
    let ids = vec![build_config_ids_all(), build_config_ids_type(ItemType::Event), vec![]];
    let resolved = configs_for(&ids, &stored);
    assert_eq!(resolved[0].as_ref().unwrap().resolved_config.occ_alert, Some(1));
    assert_eq!(resolved[1].as_ref().unwrap().resolved_config.occ_alert, Some(1));
    assert!(resolved[2].is_none());
    assert_eq!(all_scopes(&ids), vec![ConfigId::All, ConfigId::Type(ItemType::Event)]);
}

#[test]
fn resolve_three_is_left_fold() {
    let a = cfg(Some(1), Some(1), Some("a"), Some(1), None);
    let b = cfg(None, Some(2), None, None, Some(2));
    let c = cfg(Some(3), None, Some("c"), None, None);
    let configs = vec![
        StoredConfig { id: ConfigId::All, config: a.clone() },
        StoredConfig { id: ConfigId::Type(ItemType::Event), config: b.clone() },
        StoredConfig { id: ConfigId::Category("x".to_string()), config: c.clone() },
    ];
    let r = resolve_config(&configs).unwrap();
    let ab = resolve_config_direct(&a, &b);
    assert_eq!(r.resolved_config, resolve_config_direct(&ab, &c));
    assert_eq!(r.scope_config, c);
    assert!(resolve_config(&vec![]).is_none());
}

#[test]
fn donation_between_adjacent_periods() {
    let window = Some(7 * DAY as u64);
    let c = cfg(None, Some(10), None, window, window);
    let occs = vec![(occ(1, 8, 15), c.clone()), (occ(8, 15, 3), c.clone())];
    let r = resolve_occs_progress_using(&occs);
    assert_eq!(r[0], TaskProgress { progress: 15, total: 10, donated_excess: 5, received_excess: 0 });
    assert_eq!(r[1], TaskProgress { progress: 3, total: 10, donated_excess: 0, received_excess: 5 });
}

#[test]
fn donation_prefers_nearer_recipient() {
    let window = Some(30 * DAY as u64);
    let c = cfg(None, Some(10), None, window, window);
    let occs = vec![
        (occ(0, 7, 12), c.clone()),
        (occ(7, 14, 3), c.clone()),
        (occ(14, 21, 3), c.clone()),
    ];
    let r = resolve_occs_progress_using(&occs);
    assert_eq!(r[0].donated_excess, 2);
    assert_eq!(r[1].received_excess, 2);
    assert_eq!(r[2].received_excess, 0);
}

#[test]
fn donation_conserves_progress() {
    let window = Some(20 * DAY as u64);
    let c = cfg(None, Some(4), None, window, window);
    let occs = vec![
        (occ(0, 5, 9), c.clone()),
        (occ(5, 10, 0), c.clone()),
        (occ(10, 15, 7), c.clone()),
        (occ(15, 20, 1), c.clone()),
    ];
    let r = resolve_occs_progress_using(&occs);
    let received: u64 = r.iter().map(|p| p.received_excess).sum();
    let donated: u64 = r.iter().map(|p| p.donated_excess as u64).sum();
    assert_eq!(received, donated);
    for p in &r {
        assert!(p.donated_excess <= p.progress.saturating_sub(p.total));
    }
}

#[test]
fn no_window_no_donation() {
    let c = cfg(None, Some(2), None, Some(0), None);
    let occs = vec![(occ(0, 1, 9), c.clone()), (occ(1, 2, 0), c.clone()), (occ(2, 3, 0), c)];
    let r = resolve_occs_progress_using(&occs);
    assert!(r.iter().all(|p| p.received_excess == 0 && p.donated_excess == 0));
}

#[test]
fn total_defaults_to_one() {
    let occs = vec![(occ(0, 1, 0), empty_cfg()), (occ(1, 2, 3), cfg(None, Some(0), None, None, None))];
    let r = resolve_occs_progress_using(&occs);
    assert_eq!(r[0].total, 1);
    assert_eq!(r[1].total, 1);
    assert_eq!(TaskProgress::new().total, 1);
}

#[test]
fn donations_applied_in_given_order() {
    let c = cfg(None, Some(10), None, None, None);
    let occs = vec![(occ(0, 1, 14), c.clone()), (occ(1, 2, 8), c.clone()), (occ(2, 3, 9), c)];
    // the farther recipient first: it takes what the donor has
    let r = apply_donations(&occs, &vec![(5, 0, 0, 2, 0), (1, 0, 0, 1, 0)]);
    assert_eq!(r[2].received_excess, 1);
    assert_eq!(r[1].received_excess, 2);
    assert_eq!(r[0].donated_excess, 3);
}

#[test]
fn window_covers_all_donation_ranges() {
    let occs = vec![
        (occ(10, 12, 0), cfg(None, None, None, Some(3 * DAY as u64), None)),
        (occ(20, 22, 0), cfg(None, None, None, None, Some(5 * DAY as u64))),
    ];
    assert_eq!(progress_window(&occs), Some((7 * DAY, 27 * DAY)));
    assert_eq!(progress_window(&vec![]), None);
}

#[test]
fn neighbours_exclude_known_ids() {
    let known = vec![StoredOcc { id: "1".to_string(), occ: occ(0, 1, 0) }];
    let found = vec![
        StoredOcc { id: "1".to_string(), occ: occ(0, 1, 0) },
        StoredOcc { id: "2".to_string(), occ: occ(1, 2, 0) },
    ];
    let new = new_neighbours(&known, &found);
    assert_eq!(new, vec![StoredOcc { id: "2".to_string(), occ: occ(1, 2, 0) }]);
}

#[test]
fn update_ids_resolve_through_tokens() {
    let mut ids = HashMap::new();
    ids.insert(3u64, "17".to_string());
    assert_eq!(resolve_update_id(&ids, &UpdateId::Token(3)), Ok("17".to_string()));
    assert_eq!(resolve_update_id(&ids, &UpdateId::Id("5".to_string())), Ok("5".to_string()));
    assert_eq!(resolve_update_id(&ids, &UpdateId::Token(4)), Err(Error::InvalidToken(4)));
}

#[test]
fn single_result_lookup() {
    assert_eq!(get_single_helper("a", Ok(vec![1, 2])), Ok(1));
    assert_eq!(get_single_helper::<i32>("a", Ok(vec![])), Err(Error::NotFound("a".to_string())));
    assert_eq!(
        get_single_helper::<i32>("a", Err(Error::StoreIo("x".to_string()))),
        Err(Error::StoreIo("x".to_string()))
    );
}

#[test]
fn id_conversions() {
    assert_eq!(fromdb::id(42), "42");
    assert_eq!(fromdb::id(-7), "-7");
    assert_eq!(todb::id("17"), Ok(17));
    assert_eq!(todb::id("x1"), Err(Error::InvalidId("x1".to_string())));
}

#[test]
fn item_type_names() {
    assert_eq!(todb::item_type(&ItemType::ProgressTask), "ProgressTask");
    assert_eq!(fromdb::item_type("DeadlineTask"), Ok(ItemType::DeadlineTask));
    assert_eq!(fromdb::item_type("Event"), Ok(ItemType::Event));
    assert_eq!(fromdb::item_type("event"), Err(Error::Codec("event".to_string())));
}

#[test]
fn only_occ_end_for_single_date_events() {
    let initial = dunsumday::util::dates::day_from_ymd(1970, 1, 3).unwrap();
    let single = Sched::Event(EventSched {
        initial_day: initial,
        days: DayFilter::Date { dom: 3, month: 1, year: 1970 },
        time: None,
    });
    assert_eq!(todb::item_only_occ_date(&single), Some(2 * DAY));
    let timed = Sched::Event(EventSched {
        initial_day: initial,
        days: DayFilter::Date { dom: 31, month: 2, year: 1970 },
        time: Some(3600),
    });
    // 28 February 1970, the 58th day after the epoch, at 01:00
    assert_eq!(todb::item_only_occ_date(&timed), Some(58 * DAY + 3600));
    let recurring = Sched::Event(EventSched {
        initial_day: initial,
        days: DayFilter::Day { days_apart: 1 },
        time: None,
    });
    assert_eq!(todb::item_only_occ_date(&recurring), None);
    let task = Sched::DeadlineTask(DeadlineTaskSched { duration: 1 });
    assert_eq!(todb::item_only_occ_date(&task), None);
}

#[test]
fn transfer_fills_need_then_keeps_rest() {
    let mut recv = TaskProgress { progress: 3, total: 10, donated_excess: 0, received_excess: 0 };
    assert_eq!(transfer_progress(5, &mut recv), 0);
    assert_eq!(recv.received_excess, 5);
    let mut recv = TaskProgress { progress: 3, total: 10, donated_excess: 0, received_excess: 0 };
    assert_eq!(transfer_progress(20, &mut recv), 13);
    assert_eq!(recv.received_excess, 7);
    let mut full = TaskProgress { progress: 12, total: 10, donated_excess: 0, received_excess: 0 };
    assert_eq!(transfer_progress(4, &mut full), 4);
    assert_eq!(full.received_excess, 0);
}
