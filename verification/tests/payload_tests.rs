use slimbrave::catalog::{Catalog, JsonValue, RawCatalog, RawFeature, RawPermission, RawPresets};
use slimbrave::domain::PlatformKind;
use slimbrave::keymap::KeyMap;
use slimbrave::payload::{
    apply_payload_to_ui, build_apply_plan, expected_value, payload_from_writes, sanitize_payload,
    RawValue, WriteValue,
};
use slimbrave::catalog::PolicyValue;
use slimbrave::state::{Preset, UiState};

const FEATURES: &[(&str, &str, bool, bool)] = &[
    ("MetricsReportingEnabled", "Disable Metrics Reporting", true, true),
    ("SafeBrowsingExtendedReportingEnabled", "Disable Safe Browsing Reporting", true, true),
    ("UrlKeyedAnonymizedDataCollectionEnabled", "Disable URL Data Collection", true, true),
    ("FeedbackSurveysEnabled", "Disable Feedback Surveys", true, true),
    ("BraveP3AEnabled", "Disable P3A Telemetry", true, true),
    ("BraveStatsPingEnabled", "Disable Daily Stats Ping", true, true),
    ("BraveWebDiscoveryEnabled", "Disable Web Discovery", true, true),
    ("AutofillAddressEnabled", "Disable Autofill (Addresses)", true, false),
    ("AutofillCreditCardEnabled", "Disable Autofill (Credit Cards)", true, false),
    ("PasswordManagerEnabled", "Disable Password Manager", true, false),
    ("BrowserSignin", "Disable Browser Sign-in", true, false),
    ("WebRtcIPHandling", "Disable WebRTC IP Leak", true, true),
    ("QuicAllowed", "Disable QUIC Protocol", false, true),
    ("BlockThirdPartyCookies", "Block Third Party Cookies", true, true),
    ("EnableDoNotTrack", "Enable Do Not Track", true, true),
    ("GlobalPrivacyControlEnabled", "Enable Global Privacy Control", true, true),
    ("BraveDeAMPEnabled", "Enable De-AMP", true, true),
    ("BraveDebouncingEnabled", "Enable Debouncing", true, true),
    ("BraveTrackersStrippingEnabled", "Strip URL Trackers", true, true),
    ("ReduceAcceptLanguage", "Reduce Language Fingerprinting", true, true),
    ("ForceGoogleSafeSearch", "Force Google SafeSearch", false, true),
    ("IPFSEnabled", "Disable IPFS", true, true),
    ("IncognitoModeAvailability", "Force Incognito Mode", false, false),
    ("PromptForDownloadLocation", "Force Download Prompts", true, true),
    ("ClearBrowsingDataOnExitList", "Clear Data on Exit", true, false),
    ("HttpsOnlyMode", "Force HTTPS-Only Mode", true, true),
    ("BraveRewardsDisabled", "Disable Brave Rewards", true, true),
    ("BraveWalletDisabled", "Disable Brave Wallet", true, true),
    ("BraveVPNDisabled", "Disable Brave VPN", true, true),
    ("BraveAIChatEnabled", "Disable Brave AI Chat", true, true),
    ("TorDisabled", "Disable Tor", true, true),
    ("SyncDisabled", "Disable Sync", false, true),
    ("BraveNewsDisabled", "Disable Brave News", true, true),
    ("BraveTalkDisabled", "Disable Brave Talk", true, true),
    ("BraveSpeedreaderEnabled", "Disable Speedreader", true, true),
    ("BraveWaybackMachineEnabled", "Disable Wayback Machine Prompts", true, true),
    ("BackgroundModeEnabled", "Disable Background Mode", true, true),
    ("MediaRecommendationsEnabled", "Disable Media Recommendations", true, false),
    ("ShoppingListEnabled", "Disable Shopping List", true, false),
    ("AlwaysOpenPdfExternally", "Always Open PDF Externally", true, true),
    ("TranslateEnabled", "Disable Translate", false, false),
    ("SpellcheckEnabled", "Disable Spellcheck", false, false),
    ("PromotionsEnabled", "Disable Promotions", true, false),
    ("SearchSuggestEnabled", "Disable Search Suggestions", true, false),
    ("PrintingEnabled", "Disable Printing", false, false),
    ("DefaultBrowserSettingEnabled", "Disable Default Browser Prompt", true, false),
    ("DeveloperToolsDisabled", "Disable Developer Tools", false, true),
    ("BravePlaylistEnabled", "Disable Brave Playlist", true, true),
];

const PERMISSIONS: &[(&str, &str, &[&str])] = &[
    ("DefaultGeolocationSetting", "Location", &["Not Set", "Ask", "Block", "Allow"]),
    ("DefaultVideoCaptureSetting", "Camera", &["Not Set", "Ask", "Block", "Allow"]),
    ("DefaultAudioCaptureSetting", "Microphone", &["Not Set", "Ask", "Block", "Allow"]),
    ("DefaultNotificationsSetting", "Notifications", &["Not Set", "Ask", "Block", "Allow"]),
    ("DefaultJavaScriptSetting", "JavaScript", &["Not Set", "Allow", "Block"]),
    ("DefaultImagesSetting", "Images", &["Not Set", "Allow", "Block"]),
    ("DefaultPopupsSetting", "Pop-ups", &["Not Set", "Allow", "Block"]),
    ("DefaultWebUsbGuardSetting", "USB Devices", &["Not Set", "Ask", "Block"]),
    ("DefaultSerialGuardSetting", "Serial Ports", &["Not Set", "Ask", "Block"]),
    ("DefaultWebHidGuardSetting", "HID Devices", &["Not Set", "Ask", "Block"]),
    ("DefaultFileSystemReadGuardSetting", "File System", &["Not Set", "Ask", "Block"]),
    ("DefaultClipboardSetting", "Clipboard", &["Not Set", "Ask", "Block"]),
    ("DefaultWindowPlacementSetting", "Window Management", &["Not Set", "Ask", "Block"]),
    ("DefaultLocalFontsSetting", "Local Fonts", &["Not Set", "Ask", "Block"]),
    ("PaymentMethodQueryEnabled", "Payment Handlers", &["Not Set", "Allow", "Block"]),
];

fn texts(items: &[&str]) -> Vec<String> {
    items.iter().map(|s| s.to_string()).collect()
}

fn feature_value(key: &str) -> JsonValue {
    match key {
        "BrowserSignin" => JsonValue::Int(0),
        "IncognitoModeAvailability" => JsonValue::Int(2),
        "WebRtcIPHandling" => JsonValue::Str("disable_non_proxied_udp".to_string()),
        "HttpsOnlyMode" => JsonValue::Str("force_enabled".to_string()),
        "ClearBrowsingDataOnExitList" => {
            JsonValue::Array(texts(&["browsing_history", "cookies_and_other_site_data"]))
        }
        "BlockThirdPartyCookies" | "EnableDoNotTrack" | "GlobalPrivacyControlEnabled"
        | "BraveDeAMPEnabled" | "BraveDebouncingEnabled" | "BraveTrackersStrippingEnabled"
        | "ReduceAcceptLanguage" | "ForceGoogleSafeSearch" | "PromptForDownloadLocation"
        | "AlwaysOpenPdfExternally" => JsonValue::Bool(true),
        other if other.ends_with("Disabled") => JsonValue::Bool(true),
        _ => JsonValue::Bool(false),
    }
}

fn section(index: usize) -> &'static str {
    if index < 7 {
        "telemetry"
    } else if index < 26 {
        "privacy"
    } else if index < 36 {
        "brave"
    } else {
        "perf"
    }
}

fn raw_catalog() -> RawCatalog {
    let features = FEATURES
        .iter()
        .enumerate()
        .map(|(index, (key, name, privacy, security))| RawFeature {
            key: key.to_string(),
            name: name.to_string(),
            tooltip: if *key == "MetricsReportingEnabled" {
                "Stops Brave from sending anonymous usage and crash reports.".to_string()
            } else {
                format!("{name}.")
            },
            value: Some(feature_value(key)),
            windows_value: if *key == "BraveP3AEnabled" {
                Some(JsonValue::Str("Disabled".to_string()))
            } else {
                None
            },
            privacy: *privacy,
            security: *security,
            section: section(index).to_string(),
        })
        .collect();
    let permissions = PERMISSIONS
        .iter()
        .map(|(key, name, options)| RawPermission {
            key: key.to_string(),
            name: name.to_string(),
            tooltip: format!("{name} permission."),
            options: texts(options),
        })
        .collect();
    RawCatalog {
        features,
        permissions,
        presets: RawPresets {
            privacy: FEATURES.iter().filter(|f| f.2).map(|f| f.0.to_string()).collect(),
            security: FEATURES.iter().filter(|f| f.3).map(|f| f.0.to_string()).collect(),
        },
    }
}

fn catalog() -> Catalog {
    Catalog::from_raw(&raw_catalog())
}

fn mac() -> PlatformKind {
    PlatformKind::MacOs
}

#[test]
fn plan_writes_checked_and_deletes_unchecked() {
    let catalog = catalog();
    let mut state = UiState::new(&catalog);
    state.checked[0] = true;
    state.checked[4] = true;
    state.permissions[0] = 2;
    state.safe_browsing = Some(0);
    state.dns_mode = 1;

    let plan = build_apply_plan(&catalog, &state, mac());

    assert!(plan
        .write
        .contains(&("MetricsReportingEnabled".to_string(), WriteValue::Bool(false))));
    assert!(plan
        .write
        .contains(&("DefaultGeolocationSetting".to_string(), WriteValue::Int(2))));
    assert!(plan
        .write
        .contains(&("SafeBrowsingProtectionLevel".to_string(), WriteValue::Int(1))));
    assert!(plan
        .write
        .contains(&("DnsOverHttpsMode".to_string(), WriteValue::Str("off".to_string()))));
    assert!(plan.delete.contains(&"AutofillAddressEnabled".to_string()));
    assert!(plan.delete.contains(&"DnsOverHttpsTemplates".to_string()));
}

#[test]
fn plan_uses_windows_value_on_windows() {
    let catalog = catalog();
    let mut state = UiState::new(&catalog);
    let index = catalog.feature_index("BraveP3AEnabled").unwrap();
    state.checked[index] = true;

    let mac_plan = build_apply_plan(&catalog, &state, PlatformKind::MacOs);
    assert!(mac_plan
        .write
        .contains(&("BraveP3AEnabled".to_string(), WriteValue::Bool(false))));

    let win_plan = build_apply_plan(&catalog, &state, PlatformKind::Windows);
    assert!(win_plan
        .write
        .contains(&("BraveP3AEnabled".to_string(), WriteValue::Str("Disabled".to_string()))));
}

#[test]
fn sanitize_accepts_known_keys_and_reports_warnings() {
    let catalog = catalog();
    let mut raw = KeyMap::new();
    raw.insert("MetricsReportingEnabled".to_string(), RawValue::Bool(false));
    raw.insert("BrowserSignin".to_string(), RawValue::Int(0));
    raw.insert("NotARealKey".to_string(), RawValue::Int(1));

    let (cleaned, warnings) = sanitize_payload(&catalog, &raw, mac());
    assert!(cleaned.contains_key("MetricsReportingEnabled"));
    assert!(cleaned.contains_key("BrowserSignin"));
    assert!(!cleaned.contains_key("NotARealKey"));
    assert!(warnings.is_empty());
}

#[test]
fn sanitize_coerces_like_python() {
    let catalog = catalog();
    let mut raw = KeyMap::new();
    raw.insert("BrowserSignin".to_string(), RawValue::Str("0".to_string()));
    raw.insert("BrowserSignin2".to_string(), RawValue::Bool(true));
    raw.insert("HttpsOnlyMode".to_string(), RawValue::Bool(true));
    raw.insert("DnsOverHttpsTemplates".to_string(), RawValue::Int(42));

    let (cleaned, warnings) = sanitize_payload(&catalog, &raw, mac());
    assert_eq!(
        cleaned.get("BrowserSignin"),
        Some(&WriteValue::Int(0)),
        "numeric string should coerce to int"
    );
    assert_eq!(
        cleaned.get("HttpsOnlyMode"),
        Some(&WriteValue::Str("true".to_string())),
        "any value should coerce to string"
    );
    assert_eq!(
        cleaned.get("DnsOverHttpsTemplates"),
        Some(&WriteValue::Str("42".to_string()))
    );
    assert!(warnings.is_empty());
}

#[test]
fn sanitize_rejects_wrong_types() {
    let catalog = catalog();
    let mut raw = KeyMap::new();
    raw.insert(
        "MetricsReportingEnabled".to_string(),
        RawValue::Str("nope".to_string()),
    );
    raw.insert("BrowserSignin".to_string(), RawValue::Array(vec!["1".to_string()]));
    raw.insert("DnsOverHttpsMode".to_string(), RawValue::Str("bogus".to_string()));

    let (cleaned, warnings) = sanitize_payload(&catalog, &raw, mac());
    assert!(cleaned.is_empty());
    assert_eq!(warnings.len(), 3);
}

#[test]
fn sanitize_mirrors_file_system_write_guard() {
    let catalog = catalog();
    let mut raw = KeyMap::new();
    raw.insert(
        "DefaultFileSystemReadGuardSetting".to_string(),
        RawValue::Int(2),
    );

    let (cleaned, _) = sanitize_payload(&catalog, &raw, mac());
    assert_eq!(
        cleaned.get("DefaultFileSystemWriteGuardSetting"),
        Some(&WriteValue::Int(2))
    );
}

#[test]
fn payload_round_trips_through_ui() {
    let catalog = catalog();
    let mut state = UiState::new(&catalog);
    state.checked[1] = true;
    state.permissions[3] = 2;
    state.safe_browsing = Some(1);
    state.dns_mode = 3;
    state.dns_template = "https://dns.example/dns-query".to_string();

    let plan = build_apply_plan(&catalog, &state, mac());
    let payload = payload_from_writes(&plan.write);

    let mut restored = UiState::new(&catalog);
    apply_payload_to_ui(&catalog, &mut restored, &payload, mac());

    assert_eq!(restored.checked, state.checked);
    assert_eq!(restored.permissions, state.permissions);
    assert_eq!(restored.safe_browsing, state.safe_browsing);
    assert_eq!(restored.dns_mode, state.dns_mode);
    assert_eq!(restored.dns_template, state.dns_template);
}

#[test]
fn privacy_preset_matches_expected_state() {
    let catalog = catalog();
    let mut state = UiState::new(&catalog);
    state.apply_preset(&catalog, Preset::Privacy);

    assert!(state.checked[catalog.feature_index("MetricsReportingEnabled").unwrap()]);
    assert!(state.checked[catalog.feature_index("BlockThirdPartyCookies").unwrap()]);
    assert!(!state.checked[catalog.feature_index("QuicAllowed").unwrap()]);
    assert_eq!(state.safe_browsing, Some(1));
    assert_eq!(state.dns_mode, 1);
    assert_eq!(state.permissions[catalog.permission_index("DefaultGeolocationSetting").unwrap()], 2);
    assert_eq!(state.permissions[catalog.permission_index("DefaultJavaScriptSetting").unwrap()], 1);
}

#[test]
fn sanitize_warning_texts_name_the_key_and_reason() {
    let catalog = catalog();
    let mut raw = KeyMap::new();
    raw.insert("MetricsReportingEnabled".to_string(), RawValue::Str("nope".to_string()));
    raw.insert("BrowserSignin".to_string(), RawValue::Array(vec!["1".to_string()]));
    raw.insert("ClearBrowsingDataOnExitList".to_string(), RawValue::Int(3));
    raw.insert("DefaultGeolocationSetting".to_string(), RawValue::Int(7));
    raw.insert("DefaultImagesSetting".to_string(), RawValue::Str("x".to_string()));
    raw.insert("PaymentMethodQueryEnabled".to_string(), RawValue::Str("maybe".to_string()));
    raw.insert("SafeBrowsingProtectionLevel".to_string(), RawValue::Int(2));
    raw.insert("DnsOverHttpsMode".to_string(), RawValue::Int(1));

    let (cleaned, warnings) = sanitize_payload(&catalog, &raw, mac());
    assert!(cleaned.is_empty());
    assert_eq!(
        warnings,
        vec![
            "Skipped BrowserSignin: expected int".to_string(),
            "Skipped ClearBrowsingDataOnExitList: expected array".to_string(),
            "Skipped DefaultGeolocationSetting: invalid value 7".to_string(),
            "Skipped DefaultImagesSetting: invalid value".to_string(),
            "Skipped DnsOverHttpsMode: invalid value".to_string(),
            "Skipped MetricsReportingEnabled: expected bool".to_string(),
            "Skipped PaymentMethodQueryEnabled: invalid value".to_string(),
            "Skipped SafeBrowsingProtectionLevel: invalid value 2".to_string(),
        ]
    );
}

#[test]
fn sanitize_reads_words_as_booleans_and_normalizes_dns_mode() {
    let catalog = catalog();
    let mut raw = KeyMap::new();
    raw.insert("MetricsReportingEnabled".to_string(), RawValue::Str("  YES ".to_string()));
    raw.insert("QuicAllowed".to_string(), RawValue::Int(0));
    raw.insert("PaymentMethodQueryEnabled".to_string(), RawValue::Str("off".to_string()));
    raw.insert("DnsOverHttpsMode".to_string(), RawValue::Str(" Secure ".to_string()));
    raw.insert("BrowserSignin".to_string(), RawValue::Bool(true));
    raw.insert("HttpsOnlyMode".to_string(), RawValue::Array(vec!["a".to_string(), "b".to_string()]));

    let (cleaned, warnings) = sanitize_payload(&catalog, &raw, mac());
    assert!(warnings.is_empty());
    assert_eq!(cleaned.get("MetricsReportingEnabled"), Some(&WriteValue::Bool(true)));
    assert_eq!(cleaned.get("QuicAllowed"), Some(&WriteValue::Bool(false)));
    assert_eq!(cleaned.get("PaymentMethodQueryEnabled"), Some(&WriteValue::Bool(false)));
    assert_eq!(cleaned.get("DnsOverHttpsMode"), Some(&WriteValue::Str("secure".to_string())));
    assert_eq!(cleaned.get("BrowserSignin"), Some(&WriteValue::Int(1)));
    assert_eq!(cleaned.get("HttpsOnlyMode"), Some(&WriteValue::Str("a,b".to_string())));
}

#[test]
fn sanitize_keeps_an_explicit_write_guard() {
    let catalog = catalog();
    let mut raw = KeyMap::new();
    raw.insert("DefaultFileSystemReadGuardSetting".to_string(), RawValue::Int(2));
    raw.insert("DefaultFileSystemWriteGuardSetting".to_string(), RawValue::Int(3));
    let (cleaned, _) = sanitize_payload(&catalog, &raw, mac());
    assert_eq!(cleaned.get("DefaultFileSystemWriteGuardSetting"), Some(&WriteValue::Int(3)));
    assert_eq!(cleaned.len(), 2);
}

#[test]
fn plan_handles_not_set_payment_and_read_guard() {
    let catalog = catalog();
    let mut state = UiState::new(&catalog);
    let read_guard = catalog.permission_index("DefaultFileSystemReadGuardSetting").unwrap();
    let payment = catalog.permission_index("PaymentMethodQueryEnabled").unwrap();
    let camera = catalog.permission_index("DefaultVideoCaptureSetting").unwrap();
    state.permissions[read_guard] = 1;
    state.permissions[payment] = 1;
    state.permissions[camera] = 0;
    state.dns_mode = 2;
    state.dns_template = "  https://x.example/q  ".to_string();

    let plan = build_apply_plan(&catalog, &state, mac());
    assert!(plan.write.contains(&("DefaultFileSystemReadGuardSetting".to_string(), WriteValue::Int(3))));
    assert!(plan.write.contains(&("DefaultFileSystemWriteGuardSetting".to_string(), WriteValue::Int(3))));
    assert!(plan.write.contains(&("PaymentMethodQueryEnabled".to_string(), WriteValue::Bool(true))));
    assert!(plan.delete.contains(&"DefaultVideoCaptureSetting".to_string()));
    assert!(plan.delete.contains(&"SafeBrowsingProtectionLevel".to_string()));
    assert!(plan.write.contains(&("DnsOverHttpsMode".to_string(), WriteValue::Str("secure".to_string()))));
    assert!(plan.write.contains(&("DnsOverHttpsTemplates".to_string(), WriteValue::Str("https://x.example/q".to_string()))));
    let mut sorted = plan.delete.clone();
    sorted.sort();
    sorted.dedup();
    assert_eq!(plan.delete, sorted);
}

#[test]
fn plan_on_unset_read_guard_removes_both_guards() {
    let catalog = catalog();
    let state = UiState::new(&catalog);
    let plan = build_apply_plan(&catalog, &state, mac());
    assert!(plan.delete.contains(&"DefaultFileSystemReadGuardSetting".to_string()));
    assert!(plan.delete.contains(&"DefaultFileSystemWriteGuardSetting".to_string()));
    assert!(plan.write.contains(&("DnsOverHttpsMode".to_string(), WriteValue::Str("automatic".to_string()))));
    assert_eq!(plan.write.len(), 1);
}

#[test]
fn expected_value_falls_back_to_value_on_windows() {
    let catalog = catalog();
    let metrics = catalog.feature_by_key("MetricsReportingEnabled").unwrap();
    assert_eq!(expected_value(metrics, PlatformKind::Windows), PolicyValue::Bool(false));
    let p3a = catalog.feature_by_key("BraveP3AEnabled").unwrap();
    assert_eq!(expected_value(p3a, PlatformKind::Windows), PolicyValue::Str("Disabled".to_string()));
    assert_eq!(expected_value(p3a, PlatformKind::MacOs), PolicyValue::Bool(false));
}

#[test]
fn payload_shows_secure_without_template_as_secure() {
    let catalog = catalog();
    let mut writes = Vec::new();
    writes.push(("DnsOverHttpsMode".to_string(), WriteValue::Str("secure".to_string())));
    writes.push(("DnsOverHttpsTemplates".to_string(), WriteValue::Str("   ".to_string())));
    writes.push(("SafeBrowsingProtectionLevel".to_string(), WriteValue::Int(1)));
    writes.push(("ClearBrowsingDataOnExitList".to_string(), WriteValue::Array(vec!["x".to_string()])));
    writes.push(("PaymentMethodQueryEnabled".to_string(), WriteValue::Bool(false)));
    let payload = payload_from_writes(&writes);
    let mut state = UiState::new(&catalog);
    apply_payload_to_ui(&catalog, &mut state, &payload, mac());
    assert_eq!(state.dns_mode, 2);
    assert_eq!(state.dns_template, "   ".to_string());
    assert_eq!(state.safe_browsing, Some(0));
    assert!(state.checked[catalog.feature_index("ClearBrowsingDataOnExitList").unwrap()]);
    assert_eq!(state.permissions[catalog.permission_index("PaymentMethodQueryEnabled").unwrap()], 2);
}

#[test]
fn later_write_of_a_key_wins_in_payload() {
    let writes = vec![
        ("BrowserSignin".to_string(), WriteValue::Int(0)),
        ("BrowserSignin".to_string(), WriteValue::Int(2)),
    ];
    let payload = payload_from_writes(&writes);
    assert_eq!(payload.len(), 1);
    assert_eq!(payload.get("BrowserSignin"), Some(&WriteValue::Int(2)));
}

#[test]
fn write_value_from_policy_copies_each_kind() {
    assert_eq!(WriteValue::from_policy(&PolicyValue::Int(5)), WriteValue::Int(5));
    assert_eq!(
        WriteValue::from_policy(&PolicyValue::Array(vec!["a".to_string()])),
        WriteValue::Array(vec!["a".to_string()])
    );
}

fn stored(value: &WriteValue) -> RawValue {
    match value {
        WriteValue::Bool(b) => RawValue::Bool(*b),
        WriteValue::Int(i) => RawValue::Int(*i),
        WriteValue::Str(s) => RawValue::Str(s.clone()),
        WriteValue::Array(items) => RawValue::Array(items.clone()),
    }
}

#[test]
fn read_back_after_apply_gives_the_state() {
    let catalog = catalog();
    let mut state = UiState::new(&catalog);
    state.checked[0] = true;
    state.checked[24] = true;
    state.checked[25] = true;
    state.permissions[10] = 2;
    state.permissions[14] = 1;
    state.safe_browsing = Some(0);
    state.dns_mode = 3;
    state.dns_template = "https://dns.example/dns-query".to_string();

    let plan = build_apply_plan(&catalog, &state, mac());
    let mut raw = KeyMap::new();
    for (key, value) in &plan.write {
        raw.insert(key.clone(), stored(value));
    }
    let (payload, warnings) = sanitize_payload(&catalog, &raw, mac());
    assert!(warnings.is_empty());
    assert_eq!(payload.len(), raw.len());
    let mut restored = UiState::new(&catalog);
    apply_payload_to_ui(&catalog, &mut restored, &payload, mac());
    assert_eq!(restored.checked, state.checked);
    assert_eq!(restored.permissions, state.permissions);
    assert_eq!(restored.safe_browsing, state.safe_browsing);
    assert_eq!(restored.dns_mode, state.dns_mode);
    assert_eq!(restored.dns_template, state.dns_template);
}
