use data_lib::commit::Commit;
use data_lib::date::Date;
use data_lib::input_data::ObsCommunityPlugin;
use data_lib::plugin::{build_plugin_data, PluginList};
use data_lib::stats::{
    filter_plugins, update_version_history, update_weekly_download_stats, PluginDownloadStat,
    PluginDownloadStats,
};

fn commit(date: Date, hash: &str) -> Commit {
    Commit { date, hash: hash.to_string() }
}

fn entry(id: &str, name: &str) -> ObsCommunityPlugin {
    ObsCommunityPlugin {
        id: id.to_string(),
        name: name.to_string(),
        author: "someone".to_string(),
        description: "words".to_string(),
        repo: "someone/repo".to_string(),
    }
}

#[test]
fn lifecycle_add_change_remove_readd() {
    let c1 = commit(Date::new(2024, 1, 1), "c1");
    let c2 = commit(Date::new(2024, 1, 8), "c2");
    let c3 = commit(Date::new(2024, 1, 15), "c3");
    let c4 = commit(Date::new(2024, 1, 22), "c4");

    let lists = vec![
        PluginList { entries: vec![entry("A", "Foo")], commit: c1 },
        PluginList { entries: vec![entry("A", "Bar")], commit: c2 },
        PluginList { entries: vec![], commit: c3 },
        PluginList { entries: vec![entry("A", "Bar")], commit: c4 },
    ];

    let plugins = build_plugin_data(&lists);
    assert_eq!(plugins.len(), 1);
    let a = &plugins[0];
    assert_eq!(a.id, "A");
    assert!(a.removed_commit.is_none());
    assert_eq!(a.current_entry.name, "Bar");

    let props: Vec<&str> = a.change_history.iter().map(|c| c.property.as_str()).collect();
    assert_eq!(props, vec!["Plugin Added", "name", "Plugin Removed", "Plugin Re-Added"]);
    assert_eq!(a.change_history[0].commit.hash, "c1");
    assert_eq!(a.change_history[1].commit.hash, "c2");
    assert_eq!(a.change_history[1].old_value, "Foo");
    assert_eq!(a.change_history[1].new_value, "Bar");
    assert_eq!(a.change_history[2].commit.hash, "c3");
    assert_eq!(a.change_history[3].commit.hash, "c4");
}

#[test]
fn entities_missing_from_first_snapshot_never_appear() {
    let c1 = commit(Date::new(2024, 1, 1), "c1");
    let c2 = commit(Date::new(2024, 1, 8), "c2");
    let lists = vec![
        PluginList { entries: vec![entry("A", "Foo")], commit: c1 },
        PluginList { entries: vec![entry("A", "Foo"), entry("B", "New")], commit: c2 },
    ];
    let plugins = build_plugin_data(&lists);
    assert_eq!(plugins.len(), 2);
    // B exists because it appeared in a later snapshot; its record opens then
    let b = plugins.iter().find(|p| p.id == "B").unwrap();
    assert_eq!(b.added_commit.hash, "c2");
    assert_eq!(b.change_history.len(), 1);
    assert_eq!(b.change_history[0].property, "Plugin Added");
}

#[test]
fn absent_entity_is_marked_removed_once() {
    let c1 = commit(Date::new(2024, 1, 1), "c1");
    let c2 = commit(Date::new(2024, 1, 8), "c2");
    let c3 = commit(Date::new(2024, 1, 15), "c3");
    let lists = vec![
        PluginList { entries: vec![entry("A", "Foo")], commit: c1 },
        PluginList { entries: vec![], commit: c2 },
        PluginList { entries: vec![], commit: c3 },
    ];
    let plugins = build_plugin_data(&lists);
    let a = &plugins[0];
    assert_eq!(a.removed_commit.as_ref().unwrap().hash, "c2");
    assert_eq!(a.change_history.len(), 2);
}

fn stat(date: Date, hash: &str, id: &str, downloads: u32, versions: &[&str]) -> PluginDownloadStats {
    PluginDownloadStats {
        entries: vec![(
            id.to_string(),
            PluginDownloadStat {
                downloads,
                versions: versions.iter().map(|v| v.to_string()).collect(),
            },
        )],
        commit: commit(date, hash),
    }
}

#[test]
fn download_history_records_counts_and_maximum() {
    let c1 = commit(Date::new(2024, 1, 1), "c1");
    let lists = vec![PluginList { entries: vec![entry("A", "Foo")], commit: c1 }];
    let mut plugins = build_plugin_data(&lists);

    let stats = vec![
        stat(Date::new(2024, 1, 1), "s1", "A", 100, &[]),
        stat(Date::new(2024, 1, 8), "s2", "A", 150, &[]),
    ];
    update_weekly_download_stats(&mut plugins, &stats, &vec![]);

    let a = &plugins[0];
    assert_eq!(a.download_count, 150);
    assert_eq!(a.download_history.0.len(), 2);
    assert_eq!(a.download_history.0[0].downloads, 100);
    assert_eq!(a.download_history.0[1].downloads, 150);
}

#[test]
fn excluded_dates_are_skipped() {
    let c1 = commit(Date::new(2024, 1, 1), "c1");
    let lists = vec![PluginList { entries: vec![entry("A", "Foo")], commit: c1 }];
    let mut plugins = build_plugin_data(&lists);

    let bad = Date::new(2024, 5, 18);
    let stats = vec![stat(bad, "s1", "A", 100, &[])];
    update_weekly_download_stats(&mut plugins, &stats, &data_lib::stats::excluded_stat_dates());
    assert_eq!(plugins[0].download_history.0.len(), 0);
    assert_eq!(plugins[0].download_count, 0);
}

#[test]
fn version_history_first_observation_wins_and_sorts() {
    let c1 = commit(Date::new(2024, 1, 1), "c1");
    let lists = vec![PluginList { entries: vec![entry("A", "Foo")], commit: c1 }];
    let mut plugins = build_plugin_data(&lists);

    let stats = vec![
        stat(Date::new(2024, 1, 1), "s1", "A", 0, &["1.2.0", "not a version"]),
        stat(Date::new(2024, 1, 8), "s2", "A", 0, &["1.2.0", "1.0.0"]),
    ];
    update_version_history(&mut plugins, &stats);

    let a = &plugins[0];
    let versions: Vec<&str> = a.version_history.iter().map(|v| v.version.as_str()).collect();
    // sorted by parsed version order, unparsable strings never stored
    assert_eq!(versions, vec!["1.0.0", "1.2.0"]);
    // the first observation of 1.2.0 keeps its original first-seen date
    let v120 = a.version_history.iter().find(|v| v.version == "1.2.0").unwrap();
    assert_eq!(v120.initial_release_date, Date::new(2024, 1, 1));
}

#[test]
fn noise_filters_drop_same_day_removals_and_stale_empty_entities() {
    let c1 = commit(Date::new(2024, 1, 1), "c1");
    let c2 = commit(Date::new(2024, 1, 1), "c2");
    let lists = vec![
        PluginList { entries: vec![entry("A", "Foo"), entry("B", "Bar")], commit: c1 },
        PluginList { entries: vec![entry("B", "Bar")], commit: c2 },
    ];
    let mut plugins = build_plugin_data(&lists);
    let stats = vec![stat(Date::new(2024, 1, 2), "s1", "B", 10, &[])];
    update_weekly_download_stats(&mut plugins, &stats, &vec![]);

    // A was removed the day it was added; B has downloads and stays
    let now = Date::new(2024, 6, 1);
    let kept = filter_plugins(plugins, &now);
    let ids: Vec<&str> = kept.iter().map(|p| p.id.as_str()).collect();
    assert_eq!(ids, vec!["B"]);
}

#[test]
fn grace_window_spares_young_empty_entities_only() {
    let c1 = commit(Date::new(2024, 1, 1), "c1");
    let lists = vec![PluginList { entries: vec![entry("A", "Foo")], commit: c1 }];
    let plugins = build_plugin_data(&lists);

    // zero downloads, still inside the seven-day grace window: kept
    let soon = Date::new(2024, 1, 5);
    let kept = filter_plugins(plugins, &soon);
    assert_eq!(kept.len(), 1);

    // zero downloads, a year past the grace window: discarded as noise
    let later = Date::new(2025, 1, 1);
    let kept = filter_plugins(kept, &later);
    assert_eq!(kept.len(), 0);
}
