use uat_runner::build_list::{BuildList, BuildLocation};
use uat_runner::engine_utils::{
    get_engine_installs, get_launcher_builds, launcher_builds_from_entries, read_launcher_entries,
    to_engine_install, DiscoveryError, EngineInstall, InstallCandidate, LauncherEntry,
    ENGINE_PREFIX, LAUNCHER_MANIFEST_NAME,
};
use uat_runner::build_version::BuildVersionFile;
use uat_runner::platform_utils::{
    get_source_builds, StoreEntry, StoreValue, LAUNCHER_DATA_SUBDIRECTORY, SOURCE_BUILDS_KEY,
};

fn metadata(major: u8, minor: u8, patch: u8, changelist: u32, compatible: u32) -> String {
    format!(
        "{{\"MajorVersion\": {}, \"MinorVersion\": {}, \"PatchVersion\": {}, \"Changelist\": {}, \
         \"CompatibleChangelist\": {}, \"IsLicenseeVersion\": 0, \"IsPromotedBuild\": 0, \
         \"BranchName\": \"main\"}}",
        major, minor, patch, changelist, compatible
    )
}

fn candidate(name: &str, path: &str, metadata: Option<String>) -> InstallCandidate {
    InstallCandidate { name: name.to_string(), path: path.to_string(), metadata }
}

fn location(name: &str, path: &str) -> BuildLocation {
    BuildLocation { name: name.to_string(), path: path.to_string() }
}

fn entry(app_name: &str, install_location: &str) -> LauncherEntry {
    LauncherEntry {
        app_name: app_name.to_string(),
        install_location: install_location.to_string(),
    }
}

fn text_entry(key: &str, path: &str) -> StoreEntry {
    StoreEntry { key: key.to_string(), value: StoreValue::Text(path.to_string()) }
}

const LAUNCHER_MANIFEST: &str = r#"{
    "InstallationList": [
        {
            "InstallLocation": "C:\\Program Files\\Epic Games\\UE_5.3",
            "NamespaceId": "ue",
            "ItemId": "a1",
            "ArtifactId": "UE_5.3",
            "AppVersion": "5.3.2-29314046+++UE5+Release-5.3-Windows",
            "AppName": "UE_5.3"
        },
        {
            "InstallLocation": "C:\\Program Files\\Epic Games\\SomePlugin",
            "NamespaceId": "ue",
            "ItemId": "b2",
            "ArtifactId": "plugin",
            "AppVersion": "1.0",
            "AppName": "SomePlugin_5.3"
        },
        {
            "InstallLocation": "D:\\Engines\\UE_5.4",
            "NamespaceId": "ue",
            "ItemId": "c3",
            "ArtifactId": "UE_5.4",
            "AppVersion": "5.4.1-33043543+++UE5+Release-5.4-Windows",
            "AppName": "UE_5.4"
        }
    ]
}"#;

#[test]
fn fixed_names_of_the_discovery() {
    assert_eq!(ENGINE_PREFIX, "UE_");
    assert_eq!(LAUNCHER_MANIFEST_NAME, "LauncherInstalled.dat");
    assert_eq!(LAUNCHER_DATA_SUBDIRECTORY, "Epic/UnrealEngineLauncher");
    assert_eq!(SOURCE_BUILDS_KEY, "SOFTWARE\\Epic Games\\Unreal Engine\\Builds");
}

#[test]
fn changelist_zero_is_replaced_by_the_compatible_changelist() {
    let text = metadata(5, 4, 1, 0, 12345);
    let install = to_engine_install("x", true, "D:/src".to_string(), Some(&text));
    assert_eq!(install.unwrap().cl_version, 12345);
}

#[test]
fn changelist_other_than_zero_is_kept() {
    let made = |changelist: u32, compatible: u32| {
        let text = metadata(5, 4, 1, changelist, compatible);
        to_engine_install("x", false, "D:/p".to_string(), Some(&text)).unwrap()
    };
    assert_eq!(made(99, 0).cl_version, 99);
    assert_eq!(made(99, 77).cl_version, 99);
    assert_eq!(made(1, 4294967295).cl_version, 1);
    assert_eq!(made(4294967295, 0).cl_version, 4294967295);
    assert_eq!(made(0, 0).cl_version, 0);
}

#[test]
fn from_build_version_takes_every_field() {
    let version = BuildVersionFile {
        major_version: 4,
        minor_version: 27,
        patch_version: 2,
        changelist: 0,
        compatible_changelist: 17155196,
        is_licensee_version: 1,
        is_promoted_build: 0,
        branch_name: Some("++UE4+Release-4.27".to_string()),
    };
    assert_eq!(
        EngineInstall::from_build_version(version, true, "E:/UE4".to_string()),
        EngineInstall {
            major_version: 4,
            minor_version: 27,
            patch_version: 2,
            cl_version: 17155196,
            is_source: true,
            branch_name: Some("++UE4+Release-4.27".to_string()),
            base_dir: "E:/UE4".to_string(),
        }
    );
}

#[test]
fn to_engine_install_makes_an_install_of_usable_metadata() {
    let text = metadata(5, 4, 1, 7, 6);
    let install = to_engine_install("5.4", false, "C:/UE_5.4".to_string(), Some(&text));
    assert_eq!(
        install,
        Some(EngineInstall {
            major_version: 5,
            minor_version: 4,
            patch_version: 1,
            cl_version: 7,
            is_source: false,
            branch_name: Some("main".to_string()),
            base_dir: "C:/UE_5.4".to_string(),
        })
    );
}

#[test]
fn to_engine_install_drops_a_build_without_usable_metadata() {
    assert_eq!(to_engine_install("a", false, "p".to_string(), None), None);
    assert_eq!(to_engine_install("a", false, "p".to_string(), Some("")), None);
    assert_eq!(to_engine_install("a", true, "p".to_string(), Some("{}")), None);
    let partial = r#"{"MajorVersion": 5, "MinorVersion": 4}"#;
    assert_eq!(to_engine_install("a", true, "p".to_string(), Some(partial)), None);
}

#[test]
fn to_engine_install_does_not_use_the_name() {
    let text = metadata(5, 4, 1, 7, 6);
    assert_eq!(
        to_engine_install("5.3", false, "p".to_string(), Some(&text)),
        to_engine_install("", false, "p".to_string(), Some(&text))
    );
}

#[test]
fn launcher_builds_keeps_entries_with_the_engine_prefix() {
    let builds = get_launcher_builds(Some(LAUNCHER_MANIFEST)).unwrap();
    assert_eq!(
        builds.entries,
        vec![
            location("5.3", "C:\\Program Files\\Epic Games\\UE_5.3"),
            location("5.4", "D:\\Engines\\UE_5.4"),
        ]
    );
}

#[test]
fn launcher_prefix_is_matched_with_regard_to_case_and_place() {
    let entries = vec![
        entry("ue_5.1", "a"),
        entry("Ue_5.2", "b"),
        entry("XUE_5.3", "c"),
        entry("UE5.4", "d"),
        entry("UE_", "e"),
        entry("UE_UE_5.5", "f"),
        entry("", "g"),
        entry(" UE_5.6", "h"),
    ];
    let builds = launcher_builds_from_entries(&entries);
    assert_eq!(builds.entries, vec![location("", "e"), location("UE_5.5", "f")]);
}

#[test]
fn launcher_builds_later_entry_replaces_an_earlier_one_of_the_same_label() {
    let entries = vec![
        entry("UE_5.4", "first"),
        entry("UE_5.3", "other"),
        entry("UE_5.4", "second"),
    ];
    let builds = launcher_builds_from_entries(&entries);
    assert_eq!(builds.entries, vec![location("5.4", "second"), location("5.3", "other")]);
    assert_eq!(builds.get("5.4"), Some(&"second".to_string()));
    assert_eq!(builds.get("5.3"), Some(&"other".to_string()));
    assert_eq!(builds.get("5.5"), None);
}

#[test]
fn launcher_manifest_that_cannot_be_read_is_an_error() {
    assert_eq!(get_launcher_builds(None), Err(DiscoveryError::ManifestUnreadable));
}

#[test]
fn launcher_manifest_that_is_malformed_is_an_error() {
    let malformed = [
        "",
        "not json",
        "[]",
        "{}",
        r#"{"InstallationList": {}}"#,
        r#"{"InstallationList": null}"#,
        r#"{"installationlist": []}"#,
        r#"{"InstallationList": [5]}"#,
        r#"{"InstallationList": [{"AppName": "UE_5.4"}]}"#,
        r#"{"InstallationList": [{"InstallLocation": "C:/x"}]}"#,
        r#"{"InstallationList": [{"AppName": 5, "InstallLocation": "C:/x"}]}"#,
        r#"{"InstallationList": [{"AppName": "UE_5.4", "InstallLocation": null}]}"#,
        r#"{"InstallationList": [{"AppName": "UE_5.4", "InstallLocation": "C:/x"}, {}]}"#,
        r#"{"InstallationList": [{"AppName": "Other", "InstallLocation": 7}]}"#,
    ];
    for text in malformed {
        let builds = get_launcher_builds(Some(text));
        assert_eq!(builds, Err(DiscoveryError::ManifestMalformed), "{}", text);
    }
}

#[test]
fn launcher_manifest_may_list_nothing() {
    let builds = get_launcher_builds(Some(r#"{"InstallationList": []}"#)).unwrap();
    assert_eq!(builds.entries, Vec::new());
    let builds = get_launcher_builds(Some(
        r#"{"InstallationList": [{"AppName": "Fortnite", "InstallLocation": "C:/f"}]}"#,
    ))
    .unwrap();
    assert_eq!(builds.entries, Vec::new());
}

#[test]
fn launcher_entry_needs_only_name_and_location() {
    let builds = get_launcher_builds(Some(
        r#"{"InstallationList": [{"AppName": "UE_5.4", "InstallLocation": "C:/x", "Size": 5}]}"#,
    ))
    .unwrap();
    assert_eq!(builds.entries, vec![location("5.4", "C:/x")]);
}

#[test]
fn launcher_entries_are_read_in_the_order_of_the_document() {
    let value: serde_json::Value = serde_json::from_str(LAUNCHER_MANIFEST).unwrap();
    assert_eq!(
        read_launcher_entries(&value),
        Some(vec![
            entry("UE_5.3", "C:\\Program Files\\Epic Games\\UE_5.3"),
            entry("SomePlugin_5.3", "C:\\Program Files\\Epic Games\\SomePlugin"),
            entry("UE_5.4", "D:\\Engines\\UE_5.4"),
        ])
    );
    let value: serde_json::Value = serde_json::from_str(r#"{"InstallationList": 5}"#).unwrap();
    assert_eq!(read_launcher_entries(&value), None);
}

#[test]
fn discovery_errors_have_their_messages() {
    assert_eq!(DiscoveryError::ManifestUnreadable.message(), "Unable to read launcher DAT");
    assert_eq!(DiscoveryError::ManifestMalformed.message(), "Unable to parse launcher DAT");
    assert_eq!(
        DiscoveryError::StoreUnavailable.message(),
        "Unable to read source builds from registry"
    );
}

#[test]
fn source_builds_keeps_string_values_only() {
    let store = vec![
        text_entry("{11111111-AAAA}", "D:\\Source\\UE5"),
        StoreEntry { key: "{22222222-BBBB}".to_string(), value: StoreValue::Other },
        text_entry("{33333333-CCCC}", "E:\\Source\\UE4"),
    ];
    let builds = get_source_builds(Some(store)).unwrap();
    assert_eq!(
        builds.entries,
        vec![
            location("{11111111-AAAA}", "D:\\Source\\UE5"),
            location("{33333333-CCCC}", "E:\\Source\\UE4"),
        ]
    );
}

#[test]
fn source_builds_of_an_empty_store_is_empty() {
    assert_eq!(get_source_builds(Some(Vec::new())).unwrap().entries, Vec::new());
    let only_other = vec![StoreEntry { key: "k".to_string(), value: StoreValue::Other }];
    assert_eq!(get_source_builds(Some(only_other)).unwrap().entries, Vec::new());
}

#[test]
fn source_builds_of_a_store_that_cannot_be_opened_is_an_error() {
    assert_eq!(get_source_builds(None), Err(DiscoveryError::StoreUnavailable));
}

#[test]
fn source_builds_later_value_replaces_an_earlier_one_of_the_same_key() {
    let store = vec![text_entry("k", "first"), text_entry("j", "other"), text_entry("k", "second")];
    let builds = get_source_builds(Some(store)).unwrap();
    assert_eq!(builds.entries, vec![location("k", "second"), location("j", "other")]);
}

#[test]
fn build_list_insert_replaces_in_place() {
    let mut builds = BuildList::new();
    assert_eq!(builds.entries, Vec::new());
    assert_eq!(builds.get("a"), None);
    builds.insert("a".to_string(), "1".to_string());
    builds.insert("b".to_string(), "2".to_string());
    builds.insert("a".to_string(), "3".to_string());
    assert_eq!(builds.entries, vec![location("a", "3"), location("b", "2")]);
    assert_eq!(builds.get("a"), Some(&"3".to_string()));
    assert_eq!(builds.get("b"), Some(&"2".to_string()));
    assert_eq!(builds.get("A"), None);
}

#[test]
fn installs_list_packaged_builds_before_custom_builds() {
    let launcher = vec![
        candidate("5.3", "C:/UE_5.3", Some(metadata(5, 3, 2, 100, 100))),
        candidate("5.4", "C:/UE_5.4", Some(metadata(5, 4, 0, 200, 200))),
    ];
    let source = vec![candidate("{guid}", "D:/src", Some(metadata(5, 4, 1, 0, 300)))];
    let installs = get_engine_installs(Ok(launcher), Ok(source)).unwrap();
    let summary: Vec<(u8, u8, u8, u32, bool, &str)> = installs
        .iter()
        .map(|i| {
            let version = (i.major_version, i.minor_version, i.patch_version);
            (version.0, version.1, version.2, i.cl_version, i.is_source, i.base_dir.as_str())
        })
        .collect();
    assert_eq!(
        summary,
        vec![
            (5, 3, 2, 100, false, "C:/UE_5.3"),
            (5, 4, 0, 200, false, "C:/UE_5.4"),
            (5, 4, 1, 300, true, "D:/src"),
        ]
    );
}

#[test]
fn installs_are_not_sorted() {
    let launcher = vec![
        candidate("5.4", "b", Some(metadata(5, 4, 1, 2, 2))),
        candidate("4.27", "a", Some(metadata(4, 27, 2, 1, 1))),
    ];
    let source = vec![candidate("g", "c", Some(metadata(5, 0, 0, 3, 3)))];
    let installs = get_engine_installs(Ok(launcher), Ok(source)).unwrap();
    let dirs: Vec<&str> = installs.iter().map(|i| i.base_dir.as_str()).collect();
    assert_eq!(dirs, vec!["b", "a", "c"]);
}

#[test]
fn installs_leave_out_candidates_without_a_version_component() {
    let without_major = r#"{"MinorVersion": 4, "PatchVersion": 1, "Changelist": 1,
        "CompatibleChangelist": 1, "IsLicenseeVersion": 0, "IsPromotedBuild": 0,
        "BranchName": "x"}"#;
    let without_minor = r#"{"MajorVersion": 5, "PatchVersion": 1, "Changelist": 1,
        "CompatibleChangelist": 1, "IsLicenseeVersion": 0, "IsPromotedBuild": 0,
        "BranchName": "x"}"#;
    let without_patch = r#"{"MajorVersion": 5, "MinorVersion": 4, "Changelist": 1,
        "CompatibleChangelist": 1, "IsLicenseeVersion": 0, "IsPromotedBuild": 0,
        "BranchName": "x"}"#;
    let launcher = vec![
        candidate("a", "a", Some(without_major.to_string())),
        candidate("b", "b", Some(metadata(5, 4, 0, 200, 200))),
        candidate("c", "c", Some(without_minor.to_string())),
    ];
    let source = vec![
        candidate("d", "d", Some(without_patch.to_string())),
        candidate("e", "e", None),
        candidate("f", "f", Some("plugin".to_string())),
    ];
    let installs = get_engine_installs(Ok(launcher), Ok(source)).unwrap();
    assert_eq!(installs.len(), 1);
    assert_eq!(installs[0].base_dir, "b");
    let only = &installs[0];
    assert_eq!((only.major_version, only.minor_version, only.patch_version), (5, 4, 0));
}

#[test]
fn installs_of_nothing_are_nothing() {
    assert_eq!(get_engine_installs(Ok(Vec::new()), Ok(Vec::new())), Ok(Vec::new()));
}

#[test]
fn installs_fail_where_an_enumeration_failed() {
    let some = || vec![candidate("a", "a", Some(metadata(5, 4, 0, 1, 1)))];
    assert_eq!(
        get_engine_installs(Err(DiscoveryError::ManifestUnreadable), Ok(some())),
        Err(DiscoveryError::ManifestUnreadable)
    );
    assert_eq!(
        get_engine_installs(Err(DiscoveryError::ManifestMalformed), Ok(some())),
        Err(DiscoveryError::ManifestMalformed)
    );
    assert_eq!(
        get_engine_installs(Ok(some()), Err(DiscoveryError::StoreUnavailable)),
        Err(DiscoveryError::StoreUnavailable)
    );
    let both_failed = get_engine_installs(
        Err(DiscoveryError::ManifestMalformed),
        Err(DiscoveryError::StoreUnavailable),
    );
    assert_eq!(both_failed, Err(DiscoveryError::ManifestMalformed));
}

#[test]
fn installs_keep_two_builds_of_one_version() {
    let launcher = vec![candidate("5.4", "packaged", Some(metadata(5, 4, 1, 300, 300)))];
    let source = vec![candidate("g", "custom", Some(metadata(5, 4, 1, 0, 300)))];
    let installs = get_engine_installs(Ok(launcher), Ok(source)).unwrap();
    assert_eq!(installs.len(), 2);
    assert!(!installs[0].is_source);
    assert!(installs[1].is_source);
    assert_eq!(installs[0].cl_version, installs[1].cl_version);
}
