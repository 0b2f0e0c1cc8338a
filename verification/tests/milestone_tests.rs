use data_lib::commit::Commit;
use data_lib::data_array::PluginDataArray;
use data_lib::date::Date;
use data_lib::input_data::ObsCommunityPlugin;
use data_lib::milestones::{
    calculate_milestones, check_milestones_reached, generate_milestones, get_milestones_for_type,
    MilestoneType,
};
use data_lib::plugin::{build_plugin_data, PluginList};
use data_lib::stats::{update_weekly_download_stats, PluginDownloadStat, PluginDownloadStats};

#[test]
fn ladder_generation() {
    let steps = vec![1, 2, 5];
    let ladder = generate_milestones(1..3, &steps);
    assert_eq!(ladder, vec![10, 20, 50, 100, 200, 500]);
}

#[test]
fn plugin_count_ladder_starts_at_one_hundred() {
    let ladder = get_milestones_for_type(MilestoneType::PluginCount);
    assert_eq!(&ladder[0..4], &[100, 200, 500, 1000]);
    for w in ladder.windows(2) {
        assert!(w[0] < w[1]);
    }
}

#[test]
fn ladders_of_every_type_increase() {
    for t in MilestoneType::all() {
        let ladder = get_milestones_for_type(t);
        assert!(ladder.len() > 0);
        for w in ladder.windows(2) {
            assert!(w[0] < w[1]);
        }
        // every value fits the metric's integer type by construction
        assert!(*ladder.last().unwrap() <= u32::MAX);
    }
}

#[test]
fn rising_metric_reports_each_threshold_once() {
    let ladder = get_milestones_for_type(MilestoneType::PluginCount);
    let mut cursor: Option<usize> = None;

    let none = check_milestones_reached(90, &ladder, &mut cursor);
    assert!(none.is_empty());
    assert_eq!(cursor, None);

    let reached = check_milestones_reached(250, &ladder, &mut cursor);
    assert_eq!(reached, vec![100, 200]);

    // the metric drops below and recovers: nothing is reported again
    let after_drop = check_milestones_reached(90, &ladder, &mut cursor);
    assert!(after_drop.is_empty());
    let recovered = check_milestones_reached(250, &ladder, &mut cursor);
    assert!(recovered.is_empty());

    // only a new high reaches the next rung
    let higher = check_milestones_reached(600, &ladder, &mut cursor);
    assert_eq!(higher, vec![500]);
}

fn commit(date: Date, hash: &str) -> Commit {
    Commit { date, hash: hash.to_string() }
}

fn entry(id: &str) -> ObsCommunityPlugin {
    ObsCommunityPlugin {
        id: id.to_string(),
        name: id.to_string(),
        author: "a".to_string(),
        description: "d".to_string(),
        repo: "r/r".to_string(),
    }
}

#[test]
fn weekly_rollup_reports_downloads_and_delta() {
    let c1 = commit(Date::new(2024, 1, 1), "c1");
    let lists = vec![PluginList { entries: vec![entry("A")], commit: c1 }];
    let mut plugins = build_plugin_data(&lists);

    let stats = vec![
        PluginDownloadStats {
            entries: vec![("A".to_string(), PluginDownloadStat { downloads: 100, versions: vec![] })],
            commit: commit(Date::new(2024, 1, 1), "s1"),
        },
        PluginDownloadStats {
            entries: vec![("A".to_string(), PluginDownloadStat { downloads: 150, versions: vec![] })],
            commit: commit(Date::new(2024, 1, 8), "s2"),
        },
    ];
    update_weekly_download_stats(&mut plugins, &stats, &vec![]);

    let data = PluginDataArray::new(plugins, vec![]);
    let view = data.view_of();
    let end = Date::new(2024, 2, 1);
    let points = view.total_download_data(&data, &end);

    // the week holding 2024-01-08 shows the second sample and its gain
    let p = points.iter().find(|p| p.date == "2024-01-07").unwrap();
    assert_eq!(p.downloads, Some(150));
    assert_eq!(p.delta, Some(50));

    // the first observed week has no previous sample, so no delta
    let p0 = points.iter().find(|p| p.date == "2023-12-31").unwrap();
    assert_eq!(p0.downloads, Some(100));
    assert_eq!(p0.delta, None);
}

#[test]
fn milestone_walk_reports_plugin_count_once() {
    // two hundred entities appear in early 2024 and stay
    let mut entries = Vec::new();
    for i in 0..250 {
        entries.push(entry(&format!("p{}", i)));
    }
    let lists = vec![PluginList { entries, commit: commit(Date::new(2024, 1, 15), "c1") }];
    let plugins = build_plugin_data(&lists);
    let data = PluginDataArray::new(plugins, vec![]);
    let view = data.view_of();

    let end = Date::new(2024, 6, 1);
    let groups = calculate_milestones(&data, &view, &end);

    let mut reported: Vec<u32> = Vec::new();
    for g in &groups {
        for m in &g.milestones {
            if m.milestone_type == MilestoneType::PluginCount {
                reported.push(m.milestone_value);
            }
        }
    }
    // the count rises from zero to 250 in one month: both rungs fall in the
    // same month and never reappear
    assert_eq!(reported, vec![100, 200]);
    let first = groups
        .iter()
        .find(|g| g.milestones.iter().any(|m| m.milestone_type == MilestoneType::PluginCount))
        .unwrap();
    assert_eq!(first.month, "2024-02");
    assert_eq!(
        first
            .milestones
            .iter()
            .filter(|m| m.milestone_type == MilestoneType::PluginCount)
            .count(),
        2
    );
}

#[test]
fn per_entity_weekly_series() {
    let c1 = commit(Date::new(2024, 1, 1), "c1");
    let lists = vec![PluginList { entries: vec![entry("A")], commit: c1 }];
    let mut plugins = build_plugin_data(&lists);
    let stats = vec![
        PluginDownloadStats {
            entries: vec![("A".to_string(), PluginDownloadStat { downloads: 100, versions: vec![] })],
            commit: commit(Date::new(2024, 1, 1), "s1"),
        },
        PluginDownloadStats {
            entries: vec![("A".to_string(), PluginDownloadStat { downloads: 150, versions: vec![] })],
            commit: commit(Date::new(2024, 1, 8), "s2"),
        },
    ];
    update_weekly_download_stats(&mut plugins, &stats, &vec![]);
    let data = PluginDataArray::new(plugins, vec![]);
    let view = data.view_of();
    let item = view.get(&data, 0);

    let end = Date::new(2024, 2, 1);
    let points = item.download_data_points(&end);
    // the series starts at the addition date, so its first anchor is the
    // addition day itself
    assert_eq!(points[0].date, "2024-01-01");
    assert_eq!(points[0].downloads, Some(100));
    assert_eq!(points[1].date, "2024-01-08");
    assert_eq!(points[1].downloads, Some(150));
    assert_eq!(points[1].delta, Some(50));

    assert_eq!(item.obsidian_url().as_deref(), Some("obsidian://show-plugin?id=A"));
    assert_eq!(item.license_file(), "Not Found");
}

#[test]
fn milestone_type_names() {
    assert_eq!(MilestoneType::PluginCount.to_string(), "plugin-count");
    assert_eq!(MilestoneType::TotalDownloads.to_string(), "total-downloads");
    assert_eq!(MilestoneType::ReleaseCount.to_string(), "release-count");
    assert_eq!(MilestoneType::DownloadCount.to_string(), "download-count");
}
