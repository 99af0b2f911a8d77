use slimbrave::domain::{Browser, PlatformKind, WriteLevel};
use slimbrave::keymap::KeyMap;
use slimbrave::payload::{ApplyPlan, RawValue, WriteValue};
use slimbrave::platform::{
    build_machine_registry_script, channels_for, dict_to_raw, from_plist_value,
    installed_channels, insert_if_absent, mac_action, merge_legacy, plan_report,
    platform_for_os, profile_file_name, profile_removed_text, read_registry_values,
    registry_target, registry_value, MacAction, RegKind, RegistryEntry,
};
use slimbrave::platform::{
    close_next, elevation_command, encoded_command, legacy_keys_to_strip, machine_reset_script,
    pgrep_found, profiles_mention, tasklist_found, CloseStage, CloseStep,
};
use slimbrave::profile::PlistValue;

fn plan() -> ApplyPlan {
    ApplyPlan {
        write: vec![
            ("MetricsReportingEnabled".to_string(), WriteValue::Bool(false)),
            ("BrowserSignin".to_string(), WriteValue::Int(0)),
            ("DnsOverHttpsMode".to_string(), WriteValue::Str("off".to_string())),
        ],
        delete: vec!["AutofillAddressEnabled".to_string()],
    }
}

#[test]
fn machine_script_contains_writes_and_deletes() {
    let plan = ApplyPlan {
        write: vec![
            ("BraveRewardsDisabled".to_owned(), WriteValue::Bool(true)),
            ("BrowserSignin".to_owned(), WriteValue::Int(0)),
            ("DnsOverHttpsMode".to_owned(), WriteValue::Str("off".to_owned())),
            ("ClearBrowsingDataOnExitList".to_owned(), WriteValue::Array(vec!["a".to_owned(), "b".to_owned()])),
        ],
        delete: vec!["AutofillAddressEnabled".to_owned()],
    };
    let script = build_machine_registry_script(&channels_for(Browser::Brave)[0], &plan);
    assert!(script.contains("HKLM:\\Software\\Policies\\BraveSoftware\\Brave"));
    assert!(script.contains("Set-ItemProperty -Path $p -Name 'BraveRewardsDisabled' -Value [int]1 -Type DWord"));
    assert!(script.contains("Set-ItemProperty -Path $p -Name 'BrowserSignin' -Value 0 -Type DWord"));
    assert!(script.contains("Set-ItemProperty -Path $p -Name 'DnsOverHttpsMode' -Value 'off' -Type String"));
    assert!(script.contains("Set-ItemProperty -Path $p -Name 'ClearBrowsingDataOnExitList' -Value @('a','b') -Type MultiString"));
    assert!(script.contains("Remove-ItemProperty -Path $p -Name 'AutofillAddressEnabled'"));
}

#[test]
fn installed_channels_never_empty() {
    let (channels, _) = installed_channels(Browser::Brave, &[false, false, false, false]);
    assert!(!channels.is_empty());
    assert!(channels.iter().all(|c| channels_for(Browser::Brave).contains(c)));
}

#[test]
fn machine_script_lines_and_escaping() {
    let plan = ApplyPlan {
        write: vec![("It's".to_owned(), WriteValue::Str("o'k".to_owned()))],
        delete: vec!["Gone".to_owned()],
    };
    let script = build_machine_registry_script(&channels_for(Browser::Chrome)[0], &plan);
    let lines: Vec<&str> = script.split("\r\n").collect();
    assert_eq!(
        lines,
        vec![
            "$p = 'HKLM:\\Software\\Policies\\Google\\Chrome'",
            "New-Item -Path $p -Force | Out-Null",
            "Remove-ItemProperty -Path $p -Name 'Gone' -ErrorAction SilentlyContinue",
            "Set-ItemProperty -Path $p -Name 'It''s' -Value 'o''k' -Type String",
        ]
    );
}

#[test]
fn installed_channels_keep_installed_ones_in_order() {
    let (channels, any) = installed_channels(Browser::Brave, &[false, true, false, true]);
    assert!(any);
    let names: Vec<&str> = channels.iter().map(|c| c.name).collect();
    assert_eq!(names, vec!["Beta", "Nightly"]);
    let (fallback, any) = installed_channels(Browser::Chrome, &[]);
    assert!(!any);
    assert_eq!(fallback.len(), 1);
    assert_eq!(fallback[0].name, "Stable");
}

#[test]
fn channel_lists_start_with_the_default() {
    let brave = channels_for(Browser::Brave);
    assert_eq!(brave.len(), 4);
    assert_eq!(brave[0].domain, "com.brave.Browser");
    assert_eq!(brave[3].reg_path, "Software\\Policies\\BraveSoftware\\BraveNightly");
    let chrome = channels_for(Browser::Chrome);
    assert_eq!(chrome[3].name, "Canary");
    assert_eq!(chrome[1].data_dir, "Google/Chrome Beta");
}

#[test]
fn platform_names() {
    assert_eq!(platform_for_os("macos"), Some(PlatformKind::MacOs));
    assert_eq!(platform_for_os("windows"), Some(PlatformKind::Windows));
    assert_eq!(platform_for_os("linux"), None);
}

#[test]
fn detect_returns_a_platform() {
    for os in ["macos", "windows"] {
        let platform = platform_for_os(os).unwrap();
        assert!(matches!(platform, PlatformKind::MacOs | PlatformKind::Windows));
    }
}

#[test]
fn reports_list_written_and_deleted_keys() {
    let channel = channels_for(Browser::Brave)[0];
    let report = plan_report(&channel, &plan(), true, "where".to_string(), None);
    assert_eq!(report.channel, "Release");
    assert_eq!(report.path, "where");
    assert_eq!(
        report.written,
        vec!["MetricsReportingEnabled".to_string(), "BrowserSignin".to_string(), "DnsOverHttpsMode".to_string()]
    );
    assert_eq!(report.deleted, vec!["AutofillAddressEnabled".to_string()]);
    assert!(report.dry_run);
    assert_eq!(report.removed_profile, None);
}

#[test]
fn mac_actions_follow_the_plan() {
    let channel = channels_for(Browser::Brave)[0];
    assert!(matches!(mac_action(&channel, &plan(), false), MacAction::InstallProfile));
    match mac_action(&channel, &plan(), true) {
        MacAction::Describe(text) => {
            assert_eq!(text, "(dry run) would generate SlimBrave-com.brave.Browser.mobileconfig")
        }
        _ => panic!("dry run must describe"),
    }
    let empty = ApplyPlan { write: vec![], delete: vec!["MetricsReportingEnabled".to_string()] };
    assert!(matches!(mac_action(&channel, &empty, false), MacAction::RemoveProfile));
    match mac_action(&channel, &empty, true) {
        MacAction::Describe(text) => assert_eq!(text, "(dry run) would remove configuration profile"),
        _ => panic!("dry run must describe"),
    }
    assert_eq!(profile_file_name("com.brave.Browser"), "SlimBrave-com.brave.Browser.mobileconfig");
    assert_eq!(profile_removed_text(), "Configuration profile removed");
}

#[test]
fn registry_targets_by_level() {
    let channel = channels_for(Browser::Brave)[0];
    assert_eq!(
        registry_target(&channel, WriteLevel::User, false),
        "HKCU\\Software\\Policies\\BraveSoftware\\Brave"
    );
    assert_eq!(
        registry_target(&channel, WriteLevel::Machine, false),
        "HKLM\\Software\\Policies\\BraveSoftware\\Brave"
    );
    assert_eq!(
        registry_target(&channel, WriteLevel::Machine, true),
        "(dry run) HKLM\\Software\\Policies\\BraveSoftware\\Brave"
    );
    assert_eq!(
        registry_target(&channel, WriteLevel::User, true),
        "HKCU\\Software\\Policies\\BraveSoftware\\Brave"
    );
}

#[test]
fn plist_values_read_as_raw_values() {
    assert_eq!(from_plist_value(&PlistValue::Boolean(true)), Some(RawValue::Bool(true)));
    assert_eq!(from_plist_value(&PlistValue::Integer(-4)), Some(RawValue::Int(-4)));
    assert_eq!(from_plist_value(&PlistValue::Integer(1 << 70)), Some(RawValue::Int(0)));
    assert_eq!(
        from_plist_value(&PlistValue::String("x".to_string())),
        Some(RawValue::Str("x".to_string()))
    );
    assert_eq!(
        from_plist_value(&PlistValue::Array(vec![PlistValue::String("a".to_string())])),
        Some(RawValue::Array(vec!["a".to_string()]))
    );
    assert_eq!(
        from_plist_value(&PlistValue::Array(vec![PlistValue::Boolean(true)])),
        None
    );
    assert_eq!(from_plist_value(&PlistValue::Other), None);
    let raw = dict_to_raw(&vec![
        ("B".to_string(), PlistValue::Integer(2)),
        ("A".to_string(), PlistValue::Other),
        ("B".to_string(), PlistValue::Integer(3)),
    ]);
    assert_eq!(raw.len(), 1);
    assert_eq!(raw.get("B"), Some(&RawValue::Int(3)));
}

#[test]
fn legacy_values_fill_only_missing_managed_keys() {
    let mut payload = KeyMap::new();
    payload.insert("A".to_string(), RawValue::Int(1));
    let managed = vec!["A".to_string(), "B".to_string()];
    let legacy = vec![
        ("A".to_string(), PlistValue::Integer(9)),
        ("B".to_string(), PlistValue::Boolean(true)),
        ("C".to_string(), PlistValue::Boolean(true)),
    ];
    merge_legacy(&mut payload, &managed, &legacy);
    assert_eq!(payload.get("A"), Some(&RawValue::Int(1)));
    assert_eq!(payload.get("B"), Some(&RawValue::Bool(true)));
    assert!(payload.get("C").is_none());
    insert_if_absent(&mut payload, "A".to_string(), RawValue::Int(5));
    insert_if_absent(&mut payload, "D".to_string(), RawValue::Int(5));
    assert_eq!(payload.get("A"), Some(&RawValue::Int(1)));
    assert_eq!(payload.get("D"), Some(&RawValue::Int(5)));
}

#[test]
fn registry_values_are_read_by_kind() {
    assert_eq!(registry_value(RegKind::Dword, &[1, 0, 0, 0]), Some(RawValue::Int(1)));
    assert_eq!(registry_value(RegKind::Qword, &[0xFF, 0xFF, 0xFF, 0xFF, 1, 0, 0, 0]), Some(RawValue::Int(4294967295)));
    assert_eq!(registry_value(RegKind::Dword, &[1, 0]), None);
    assert_eq!(registry_value(RegKind::Sz, b"off\0\0"), Some(RawValue::Str("off".to_string())));
    assert_eq!(registry_value(RegKind::ExpandSz, &[0x66, 0xFF]), Some(RawValue::Str("f\u{FFFD}".to_string())));
    assert_eq!(
        registry_value(RegKind::MultiSz, b"a\0\0bc\0"),
        Some(RawValue::Array(vec!["a".to_string(), "bc".to_string()]))
    );
    assert_eq!(registry_value(RegKind::Other, b"x"), None);
}

#[test]
fn registry_keeps_the_first_value_of_a_name() {
    let mut raw = KeyMap::new();
    raw.insert("Kept".to_string(), RawValue::Int(7));
    let entries = vec![
        RegistryEntry { name: "Kept".to_string(), kind: RegKind::Dword, bytes: vec![1, 0, 0, 0] },
        RegistryEntry { name: "New".to_string(), kind: RegKind::Other, bytes: vec![] },
        RegistryEntry { name: "New".to_string(), kind: RegKind::Sz, bytes: b"first".to_vec() },
        RegistryEntry { name: "New".to_string(), kind: RegKind::Sz, bytes: b"second".to_vec() },
    ];
    read_registry_values(&entries, &mut raw);
    assert_eq!(raw.get("Kept"), Some(&RawValue::Int(7)));
    assert_eq!(raw.get("New"), Some(&RawValue::Str("first".to_string())));
}

#[test]
fn encoded_commands_are_base64_of_utf16() {
    assert_eq!(encoded_command("A"), "QQA=");
    assert_eq!(encoded_command("dir"), "ZABpAHIA");
    assert_eq!(encoded_command("\u{1F600}x"), "PdgA3ngA");
    assert_eq!(encoded_command("Get-Item \u{e9}"), "RwBlAHQALQBJAHQAZQBtACAA6QA=");
    assert_eq!(encoded_command(""), "");
    assert_eq!(
        elevation_command("dir"),
        "Start-Process powershell -Verb RunAs -WindowStyle Hidden -Wait -ArgumentList '-NoProfile','-EncodedCommand','ZABpAHIA'"
    );
}

#[test]
fn machine_reset_doubles_path_separators() {
    let channel = channels_for(Browser::Brave)[0];
    assert_eq!(
        machine_reset_script(&channel),
        "Remove-Item -Path 'HKLM:\\Software\\\\Policies\\\\BraveSoftware\\\\Brave' -Recurse -Force -ErrorAction SilentlyContinue"
    );
}

#[test]
fn closing_kills_only_a_browser_that_survives_termination() {
    let (stage, step) = close_next(CloseStage::Begin, false);
    assert_eq!(step, CloseStep::Quit { wait_ms: 2000 });
    let (stage, step) = close_next(stage, false);
    assert_eq!(step, CloseStep::Terminate { wait_ms: 2000 });
    assert_eq!(close_next(stage, true), (CloseStage::Final, CloseStep::Kill { wait_ms: 1500 }));
    assert_eq!(close_next(stage, false), (CloseStage::Final, CloseStep::Look));
    assert_eq!(close_next(CloseStage::Final, false).1, CloseStep::Done(true));
    assert_eq!(close_next(CloseStage::Final, true).1, CloseStep::Done(false));
}

#[test]
fn tool_output_is_read() {
    assert!(!pgrep_found(b"  \n"));
    assert!(pgrep_found(b"4242\n"));
    assert!(tasklist_found(b"\"BRAVE.EXE\",\"1234\""));
    assert!(!tasklist_found(b"INFO: No tasks are running"));
    assert!(profiles_mention(b"attribute: profileIdentifier: com.slimbrave.profile.x", "com.slimbrave.profile.x"));
    assert!(profiles_mention(b"name: SlimBrave Policy (y)", "other"));
    assert!(!profiles_mention(b"nothing", "other"));
}

#[test]
fn legacy_keys_are_the_managed_ones_present() {
    let managed = vec!["A".to_string(), "B".to_string(), "C".to_string()];
    let present = vec!["C".to_string(), "X".to_string(), "A".to_string()];
    assert_eq!(legacy_keys_to_strip(&managed, &present), vec!["A".to_string(), "C".to_string()]);
}
