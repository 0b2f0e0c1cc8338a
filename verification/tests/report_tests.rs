use data_lib::bundlers::Bundler;
use data_lib::commit::Commit;
use data_lib::data_array::PluginDataArray;
use data_lib::date::Date;
use data_lib::input_data::ObsCommunityPlugin;
use data_lib::license::{LicenseData, LicenseDescription, LicenseDescriptionNested, Licenses};
use data_lib::packages::PackageManager;
use data_lib::plugin::{
    build_plugin_data, LicenseInfo, PluginExtraData, PluginList, PluginManifest, PluginRepoData,
};
use data_lib::testing::TestingFramework;
use data_lib::release::{get_asset_cpu_instruction_set, get_asset_release_file_type, OS};
use data_lib::warnings::get_plugin_warnings;
use data_lib::warnings::PluginWarning;

fn commit(date: Date, hash: &str) -> Commit {
    Commit { date, hash: hash.to_string() }
}

fn entry(id: &str, name: &str) -> ObsCommunityPlugin {
    ObsCommunityPlugin {
        id: id.to_string(),
        name: name.to_string(),
        author: "someone".to_string(),
        description: "words".to_string(),
        repo: "someone/repo".to_string(),
    }
}

fn manifest(name: &str) -> PluginManifest {
    PluginManifest {
        author: "someone".to_string(),
        min_app_version: "1.0.0".to_string(),
        name: name.to_string(),
        version: "0.1.0".to_string(),
        author_url: None,
        funding_url: None,
        description: "words".to_string(),
        id: "A".to_string(),
        is_desktop_only: None,
        help_url: None,
    }
}

fn repo_data(name: &str) -> PluginRepoData {
    PluginRepoData {
        uses_typescript: true,
        has_package_json: true,
        package_managers: vec![PackageManager::Npm],
        testing_frameworks: vec![TestingFramework::Jest],
        bundlers: vec![Bundler::Esbuild, Bundler::Rollup],
        dependencies: vec!["left-pad".to_string()],
        dev_dependencies: vec![],
        has_test_files: true,
        has_beta_manifest: false,
        file_type_counts: vec![("ts".to_string(), 10)],
        lines_of_code: vec![("TypeScript".to_string(), 1200)],
        package_json_license: LicenseInfo::Known("MIT".to_string()),
        file_license: LicenseInfo::Known("MIT".to_string()),
        manifest: manifest(name),
    }
}

fn array_with_one_scanned_entity(name_in_manifest: &str) -> PluginDataArray {
    let c1 = commit(Date::new(2024, 1, 1), "c1");
    let lists = vec![PluginList { entries: vec![entry("A", "Foo")], commit: c1 }];
    let plugins = build_plugin_data(&lists);
    let extra = vec![PluginExtraData {
        id: "A".to_string(),
        repo: Ok(repo_data(name_in_manifest)),
        removal_reason: None,
        deprecated_versions: vec![],
    }];
    PluginDataArray::new(plugins, extra)
}

#[test]
fn repo_data_points_counts_tools() {
    let data = array_with_one_scanned_entity("Foo");
    let view = data.view_of();
    let points = view.repo_data_points(&data);

    let npm = points.package_managers.iter().find(|p| p.0 == "npm").unwrap();
    assert_eq!(npm.1, 1);
    let yarn = points.package_managers.iter().find(|p| p.0 == "yarn").unwrap();
    assert_eq!(yarn.1, 0);
    assert_eq!(points.no_package_managers, 0);

    let esbuild = points.bundlers.iter().find(|p| p.0 == "esbuild").unwrap();
    assert_eq!(esbuild.1, 1);
    let rollup = points.bundlers.iter().find(|p| p.0 == "Rollup").unwrap();
    assert_eq!(rollup.1, 1);
    assert_eq!(points.no_bundlers, 0);

    let jest = points.testing_frameworks.iter().find(|p| p.0 == "Jest").unwrap();
    assert_eq!(jest.1, 1);
    assert_eq!(points.no_testing_frameworks, 0);

    assert_eq!(points.typescript, 1);
    assert_eq!(points.beta_manifest, 0);
}

#[test]
fn warnings_flag_mismatched_manifest() {
    let data = array_with_one_scanned_entity("Other Name");
    let view = data.view_of();
    let item = view.get(&data, 0);
    let now = Date::new(2024, 2, 1);
    let warnings = get_plugin_warnings(item, &now);
    assert!(warnings
        .iter()
        .any(|w| matches!(w, PluginWarning::MismatchedManifestData(_))));
    assert!(!warnings.iter().any(|w| matches!(w, PluginWarning::Removed(_))));
}

#[test]
fn warnings_flag_missing_data_and_inactivity() {
    let c1 = commit(Date::new(2020, 1, 1), "c1");
    let lists = vec![PluginList { entries: vec![entry("A", "Foo")], commit: c1 }];
    let plugins = build_plugin_data(&lists);
    let data = PluginDataArray::new(plugins, vec![]);
    let view = data.view_of();
    let item = view.get(&data, 0);

    let now = Date::new(2024, 2, 1);
    let warnings = get_plugin_warnings(item, &now);
    assert!(warnings
        .iter()
        .any(|w| matches!(w, PluginWarning::MissingExtendedData(_))));
    // four stale years: the severe inactivity warning, not the mild one
    assert!(warnings
        .iter()
        .any(|w| matches!(w, PluginWarning::Inactivity24Months(_))));
    assert!(!warnings
        .iter()
        .any(|w| matches!(w, PluginWarning::Inactivity12Months(_))));
}

#[test]
fn warnings_flag_license_findings() {
    let c1 = commit(Date::new(2024, 1, 1), "c1");
    let lists = vec![PluginList { entries: vec![entry("A", "Foo")], commit: c1 }];
    let plugins = build_plugin_data(&lists);
    let mut repo = repo_data("Foo");
    repo.file_license = LicenseInfo::Known("MIT".to_string());
    repo.package_json_license = LicenseInfo::Known("Apache-2.0".to_string());
    let extra = vec![PluginExtraData {
        id: "A".to_string(),
        repo: Ok(repo),
        removal_reason: None,
        deprecated_versions: vec![],
    }];
    let data = PluginDataArray::new(plugins, extra);
    let view = data.view_of();
    let item = view.get(&data, 0);
    let warnings = get_plugin_warnings(item, &Date::new(2024, 2, 1));
    let mismatch = warnings
        .iter()
        .find_map(|w| match w {
            PluginWarning::MismatchedLicense(m) => Some(m),
            _ => None,
        })
        .unwrap();
    assert_eq!(mismatch.license_file, "MIT");
    assert_eq!(mismatch.package_json_license, "Apache-2.0");
    assert!(!warnings.iter().any(|w| matches!(w, PluginWarning::Unlicensed(_))));
    assert!(!warnings.iter().any(|w| matches!(w, PluginWarning::NoLicense(_))));
}

#[test]
fn overview_and_sorting() {
    let c1 = commit(Date::new(2024, 1, 1), "c1");
    let lists = vec![PluginList {
        entries: vec![entry("b-plugin", "Beta"), entry("a-plugin", "Alpha")],
        commit: c1,
    }];
    let plugins = build_plugin_data(&lists);
    let data = PluginDataArray::new(plugins, vec![]);
    let mut view = data.view_of();

    view.sort_asc(&data, data_lib::data_array::PluginDataSortSpec::Id);
    let ids = view.get_ids(&data);
    assert_eq!(ids, vec!["a-plugin", "b-plugin"]);

    view.sort_desc(&data, data_lib::data_array::PluginDataSortSpec::Name);
    let overview = view.overview(&data);
    assert_eq!(overview[0].name, "Beta");
    assert_eq!(overview[0].repo_url, "https://github.com/someone/repo");

    view.truncate_top(1);
    assert_eq!(view.len(), 1);
}

#[test]
fn asset_classification() {
    assert_eq!(OS::from_asset_name("app-1.6.7.asar.gz"), None);
    assert_eq!(OS::from_asset_name("App-1.6.7-universal.dmg"), Some(OS::MacOS));
    assert_eq!(OS::from_asset_name("app-1.6.7.exe"), Some(OS::Windows));
    assert_eq!(OS::from_asset_name("app-1.6.7.tar.gz"), Some(OS::Linux));

    assert_eq!(get_asset_release_file_type("app.1.6.7.exe").as_deref(), Some("exe"));
    assert_eq!(get_asset_release_file_type("app-1.6.7-arm64.tar.gz").as_deref(), Some("tar.gz"));
    assert_eq!(get_asset_release_file_type("plain"), None);

    assert_eq!(get_asset_cpu_instruction_set("App-1.6.7-universal.dmg"), "both (.dmg)");
    assert_eq!(get_asset_cpu_instruction_set("app-1.6.7-arm64.tar.gz"), "arm64");
    assert_eq!(get_asset_cpu_instruction_set("app-1.6.7.tar.gz"), "x86");
}

#[test]
fn tool_discovery_from_dependency_lists() {
    let deps = vec!["esbuild".to_string(), "jest".to_string(), "left-pad".to_string()];
    let bundlers = Bundler::find_bundlers(&deps);
    assert_eq!(bundlers, vec![Bundler::Esbuild]);
    let tfs = TestingFramework::find_testing_frameworks(&deps);
    assert_eq!(tfs, vec![TestingFramework::Jest]);

    let files = vec!["src/package-lock.json".to_string(), "yarn.lock".to_string()];
    let pms = PackageManager::find_package_managers(&files);
    assert_eq!(pms, vec![PackageManager::Npm, PackageManager::Yarn]);

    assert_eq!(Bundler::from_identifier("ROLLUP"), Some(Bundler::Rollup));
    assert_eq!(PackageManager::from_identifier("deno"), Some(PackageManager::Deno));
    assert_eq!(TestingFramework::from_identifier("nothing"), None);
}

#[test]
fn tool_discovery_orders_by_first_match() {
    let deps = vec![
        "vite".to_string(),
        "mocha".to_string(),
        "esbuild".to_string(),
        "vite".to_string(),
    ];
    assert_eq!(Bundler::find_bundlers(&deps), vec![Bundler::Vite, Bundler::Esbuild]);
    let tdeps = vec!["vitest".to_string(), "jest".to_string()];
    assert_eq!(
        TestingFramework::find_testing_frameworks(&tdeps),
        vec![TestingFramework::Vitest, TestingFramework::Jest]
    );
    let files = vec!["bun.lockb".to_string(), "a/package-lock.json".to_string()];
    assert_eq!(
        PackageManager::find_package_managers(&files),
        vec![PackageManager::Bun, PackageManager::Npm]
    );
}

fn corpus() -> Licenses {
    Licenses {
        licenses: vec![LicenseData {
            title: "MIT License".to_string(),
            spdx_id: "MIT".to_string(),
            description: "short and permissive".to_string(),
            how: "add a license file".to_string(),
            permissions: vec!["commercial-use".to_string(), "modifications".to_string()],
            conditions: vec!["include-copyright".to_string()],
            limitations: vec!["liability".to_string()],
        }],
        permissions: vec![],
        conditions: vec![],
        limitations: vec![],
        descriptions: LicenseDescriptionNested {
            permissions: vec![LicenseDescription {
                description: "may be used commercially".to_string(),
                label: "Commercial use".to_string(),
                tag: "commercial-use".to_string(),
            }],
            conditions: vec![],
            limitations: vec![],
        },
    }
}

#[test]
fn license_breakdown_counts_corpus_properties() {
    let data = array_with_one_scanned_entity("Foo");
    let view = data.view_of();
    let points = view.license_data_points(&data, &corpus());
    assert_eq!(points.licenses, vec![("MIT".to_string(), 1)]);
    assert_eq!(
        points.permissions,
        vec![("commercial-use".to_string(), 1), ("modifications".to_string(), 1)]
    );
    assert_eq!(points.conditions, vec![("include-copyright".to_string(), 1)]);
    assert_eq!(points.limitations, vec![("liability".to_string(), 1)]);
    assert_eq!(points.descriptions.permissions.len(), 1);
    assert_eq!(points.descriptions.permissions[0].tag, "commercial-use");
}

#[test]
fn license_breakdown_labels_unknown_licenses() {
    let data = array_with_one_scanned_entity("Foo");
    let empty = Licenses {
        licenses: vec![],
        permissions: vec![],
        conditions: vec![],
        limitations: vec![],
        descriptions: LicenseDescriptionNested {
            permissions: vec![],
            conditions: vec![],
            limitations: vec![],
        },
    };
    let points = data.view_of().license_data_points(&data, &empty);
    assert_eq!(points.licenses, vec![("Unrecognized".to_string(), 1)]);
    assert!(points.permissions.is_empty());
    assert!(points.conditions.is_empty());
    assert!(points.limitations.is_empty());
}

#[test]
fn license_info_display_and_matching() {
    let known = LicenseInfo::Known("MIT".to_string());
    let other = LicenseInfo::Known("Apache-2.0".to_string());
    assert_eq!(known.to_fancy_string(), "MIT");
    assert_eq!(LicenseInfo::NotFound.to_fancy_string(), "Not Found");
    assert!(known.matches(&LicenseInfo::Unrecognized));
    assert!(!known.matches(&other));
    assert!(known.matches_identifier("MIT"));
    assert!(!LicenseInfo::NotFound.matches_identifier("MIT"));
}
