use slimbrave::catalog::{Catalog, JsonValue, RawCatalog, RawFeature, RawPermission, RawPresets};
use slimbrave::keymap::KeyMap;
use slimbrave::state::{dns_mode_option, safe_browsing_option, Preset, StateSnapshot, UiState};

const FEATURES: &[(&str, &str, bool, bool)] = &[
    ("MetricsReportingEnabled", "Disable Metrics Reporting", true, true),
    ("SafeBrowsingExtendedReportingEnabled", "Disable Safe Browsing Reporting", true, true),
    ("UrlKeyedAnonymizedDataCollectionEnabled", "Disable URL Data Collection", true, true),
    ("FeedbackSurveysEnabled", "Disable Feedback Surveys", true, true),
    ("BraveP3AEnabled", "Disable P3A Telemetry", true, true),
    ("BraveStatsPingEnabled", "Disable Daily Stats Ping", true, true),
    ("BraveWebDiscoveryEnabled", "Disable Web Discovery", true, true),
    ("AutofillAddressEnabled", "Disable Autofill (Addresses)", true, false),
    ("AutofillCreditCardEnabled", "Disable Autofill (Credit Cards)", true, false),
    ("PasswordManagerEnabled", "Disable Password Manager", true, false),
    ("BrowserSignin", "Disable Browser Sign-in", true, false),
    ("WebRtcIPHandling", "Disable WebRTC IP Leak", true, true),
    ("QuicAllowed", "Disable QUIC Protocol", false, true),
    ("BlockThirdPartyCookies", "Block Third Party Cookies", true, true),
    ("EnableDoNotTrack", "Enable Do Not Track", true, true),
    ("GlobalPrivacyControlEnabled", "Enable Global Privacy Control", true, true),
    ("BraveDeAMPEnabled", "Enable De-AMP", true, true),
    ("BraveDebouncingEnabled", "Enable Debouncing", true, true),
    ("BraveTrackersStrippingEnabled", "Strip URL Trackers", true, true),
    ("ReduceAcceptLanguage", "Reduce Language Fingerprinting", true, true),
    ("ForceGoogleSafeSearch", "Force Google SafeSearch", false, true),
    ("IPFSEnabled", "Disable IPFS", true, true),
    ("IncognitoModeAvailability", "Force Incognito Mode", false, false),
    ("PromptForDownloadLocation", "Force Download Prompts", true, true),
    ("ClearBrowsingDataOnExitList", "Clear Data on Exit", true, false),
    ("HttpsOnlyMode", "Force HTTPS-Only Mode", true, true),
    ("BraveRewardsDisabled", "Disable Brave Rewards", true, true),
    ("BraveWalletDisabled", "Disable Brave Wallet", true, true),
    ("BraveVPNDisabled", "Disable Brave VPN", true, true),
    ("BraveAIChatEnabled", "Disable Brave AI Chat", true, true),
    ("TorDisabled", "Disable Tor", true, true),
    ("SyncDisabled", "Disable Sync", false, true),
    ("BraveNewsDisabled", "Disable Brave News", true, true),
    ("BraveTalkDisabled", "Disable Brave Talk", true, true),
    ("BraveSpeedreaderEnabled", "Disable Speedreader", true, true),
    ("BraveWaybackMachineEnabled", "Disable Wayback Machine Prompts", true, true),
    ("BackgroundModeEnabled", "Disable Background Mode", true, true),
    ("MediaRecommendationsEnabled", "Disable Media Recommendations", true, false),
    ("ShoppingListEnabled", "Disable Shopping List", true, false),
    ("AlwaysOpenPdfExternally", "Always Open PDF Externally", true, true),
    ("TranslateEnabled", "Disable Translate", false, false),
    ("SpellcheckEnabled", "Disable Spellcheck", false, false),
    ("PromotionsEnabled", "Disable Promotions", true, false),
    ("SearchSuggestEnabled", "Disable Search Suggestions", true, false),
    ("PrintingEnabled", "Disable Printing", false, false),
    ("DefaultBrowserSettingEnabled", "Disable Default Browser Prompt", true, false),
    ("DeveloperToolsDisabled", "Disable Developer Tools", false, true),
    ("BravePlaylistEnabled", "Disable Brave Playlist", true, true),
];

const PERMISSIONS: &[(&str, &str, &[&str])] = &[
    ("DefaultGeolocationSetting", "Location", &["Not Set", "Ask", "Block", "Allow"]),
    ("DefaultVideoCaptureSetting", "Camera", &["Not Set", "Ask", "Block", "Allow"]),
    ("DefaultAudioCaptureSetting", "Microphone", &["Not Set", "Ask", "Block", "Allow"]),
    ("DefaultNotificationsSetting", "Notifications", &["Not Set", "Ask", "Block", "Allow"]),
    ("DefaultJavaScriptSetting", "JavaScript", &["Not Set", "Allow", "Block"]),
    ("DefaultImagesSetting", "Images", &["Not Set", "Allow", "Block"]),
    ("DefaultPopupsSetting", "Pop-ups", &["Not Set", "Allow", "Block"]),
    ("DefaultWebUsbGuardSetting", "USB Devices", &["Not Set", "Ask", "Block"]),
    ("DefaultSerialGuardSetting", "Serial Ports", &["Not Set", "Ask", "Block"]),
    ("DefaultWebHidGuardSetting", "HID Devices", &["Not Set", "Ask", "Block"]),
    ("DefaultFileSystemReadGuardSetting", "File System", &["Not Set", "Ask", "Block"]),
    ("DefaultClipboardSetting", "Clipboard", &["Not Set", "Ask", "Block"]),
    ("DefaultWindowPlacementSetting", "Window Management", &["Not Set", "Ask", "Block"]),
    ("DefaultLocalFontsSetting", "Local Fonts", &["Not Set", "Ask", "Block"]),
    ("PaymentMethodQueryEnabled", "Payment Handlers", &["Not Set", "Allow", "Block"]),
];

fn texts(items: &[&str]) -> Vec<String> {
    items.iter().map(|s| s.to_string()).collect()
}

fn feature_value(key: &str) -> JsonValue {
    match key {
        "BrowserSignin" => JsonValue::Int(0),
        "IncognitoModeAvailability" => JsonValue::Int(2),
        "WebRtcIPHandling" => JsonValue::Str("disable_non_proxied_udp".to_string()),
        "HttpsOnlyMode" => JsonValue::Str("force_enabled".to_string()),
        "ClearBrowsingDataOnExitList" => {
            JsonValue::Array(texts(&["browsing_history", "cookies_and_other_site_data"]))
        }
        "BlockThirdPartyCookies" | "EnableDoNotTrack" | "GlobalPrivacyControlEnabled"
        | "BraveDeAMPEnabled" | "BraveDebouncingEnabled" | "BraveTrackersStrippingEnabled"
        | "ReduceAcceptLanguage" | "ForceGoogleSafeSearch" | "PromptForDownloadLocation"
        | "AlwaysOpenPdfExternally" => JsonValue::Bool(true),
        other if other.ends_with("Disabled") => JsonValue::Bool(true),
        _ => JsonValue::Bool(false),
    }
}

fn section(index: usize) -> &'static str {
    if index < 7 {
        "telemetry"
    } else if index < 26 {
        "privacy"
    } else if index < 36 {
        "brave"
    } else {
        "perf"
    }
}

fn raw_catalog() -> RawCatalog {
    let features = FEATURES
        .iter()
        .enumerate()
        .map(|(index, (key, name, privacy, security))| RawFeature {
            key: key.to_string(),
            name: name.to_string(),
            tooltip: if *key == "MetricsReportingEnabled" {
                "Stops Brave from sending anonymous usage and crash reports.".to_string()
            } else {
                format!("{name}.")
            },
            value: Some(feature_value(key)),
            windows_value: if *key == "BraveP3AEnabled" {
                Some(JsonValue::Str("Disabled".to_string()))
            } else {
                None
            },
            privacy: *privacy,
            security: *security,
            section: section(index).to_string(),
        })
        .collect();
    let permissions = PERMISSIONS
        .iter()
        .map(|(key, name, options)| RawPermission {
            key: key.to_string(),
            name: name.to_string(),
            tooltip: format!("{name} permission."),
            options: texts(options),
        })
        .collect();
    RawCatalog {
        features,
        permissions,
        presets: RawPresets {
            privacy: FEATURES.iter().filter(|f| f.2).map(|f| f.0.to_string()).collect(),
            security: FEATURES.iter().filter(|f| f.3).map(|f| f.0.to_string()).collect(),
        },
    }
}

fn catalog() -> Catalog {
    Catalog::from_raw(&raw_catalog())
}

#[test]
fn snapshot_survives_state_catalog_mismatch() {
    let catalog = catalog();
    let mut state = UiState::new(&catalog);
    state.checked = vec![true; 1000];
    state.permissions = vec![99; 500];
    let snapshot = state.to_snapshot(&catalog);
    assert!(snapshot.features.len() <= catalog.features.len());
    assert!(snapshot.permissions.len() <= catalog.permissions.len());
}

#[test]
fn preset_survives_short_checked_vector() {
    let catalog = catalog();
    let mut state = UiState::new(&catalog);
    state.checked = vec![false; 1];
    state.apply_preset(&catalog, Preset::Privacy);
    assert!(state.checked.len() >= 1);
}

#[test]
fn snapshot_round_trips() {
    let catalog = catalog();
    let mut state = UiState::new(&catalog);
    state.checked[1] = true;
    state.permissions[3] = 2;
    state.safe_browsing = Some(1);
    state.dns_mode = 3;
    state.dns_template = "https://dns.example/dns-query".to_string();

    let snapshot = state.to_snapshot(&catalog);
    let mut restored = UiState::new(&catalog);
    restored.apply_snapshot(&catalog, &snapshot);

    assert_eq!(restored.checked, state.checked);
    assert_eq!(restored.permissions, state.permissions);
    assert_eq!(restored.safe_browsing, state.safe_browsing);
    assert_eq!(restored.dns_mode, state.dns_mode);
    assert_eq!(restored.dns_template, state.dns_template);
}

#[test]
fn snapshot_holds_the_export_fields() {
    let catalog = catalog();
    let mut state = UiState::new(&catalog);
    state.checked[0] = true;
    state.permissions[0] = 2;
    state.safe_browsing = Some(0);
    state.dns_mode = 3;
    state.dns_template = "https://dns.example/dns-query".to_string();

    let snapshot = state.to_snapshot(&catalog);
    assert_eq!(snapshot.features, vec!["MetricsReportingEnabled".to_string()]);
    assert_eq!(snapshot.permissions.len(), 1);
    assert_eq!(
        snapshot.permissions.get("DefaultGeolocationSetting"),
        Some(&"Block".to_string())
    );
    assert_eq!(snapshot.safe_browsing, "On");
    assert_eq!(snapshot.dns_mode, "Custom");
    assert_eq!(snapshot.dns_template, "https://dns.example/dns-query");
}

#[test]
fn unset_safe_browsing_exports_empty_and_restores_unset() {
    let catalog = catalog();
    let state = UiState::new(&catalog);
    let snapshot = state.to_snapshot(&catalog);
    assert_eq!(snapshot.safe_browsing, "");
    assert_eq!(snapshot.dns_mode, "Automatic");
    assert!(snapshot.features.is_empty());
    assert!(snapshot.permissions.is_empty());
    let mut restored = UiState::new(&catalog);
    restored.safe_browsing = Some(1);
    restored.apply_snapshot(&catalog, &snapshot);
    assert_eq!(restored.safe_browsing, None);
}

#[test]
fn apply_snapshot_ignores_unknown_names() {
    let catalog = catalog();
    let mut permissions = KeyMap::new();
    permissions.insert("DefaultGeolocationSetting".to_string(), "Sometimes".to_string());
    permissions.insert("NotAPermission".to_string(), "Block".to_string());
    permissions.insert("DefaultJavaScriptSetting".to_string(), "Block".to_string());
    let snapshot = StateSnapshot {
        features: vec!["NotAFeature".to_string(), "QuicAllowed".to_string()],
        permissions,
        safe_browsing: "Sometimes".to_string(),
        dns_mode: "Bogus".to_string(),
        dns_template: "t".to_string(),
    };
    let mut state = UiState::new(&catalog);
    state.apply_snapshot(&catalog, &snapshot);
    let quic = catalog.feature_index("QuicAllowed").unwrap();
    assert_eq!(state.checked.iter().filter(|c| **c).count(), 1);
    assert!(state.checked[quic]);
    assert_eq!(state.permissions[catalog.permission_index("DefaultGeolocationSetting").unwrap()], 0);
    assert_eq!(state.permissions[catalog.permission_index("DefaultJavaScriptSetting").unwrap()], 2);
    assert_eq!(state.safe_browsing, None);
    assert_eq!(state.dns_mode, 0);
    assert_eq!(state.dns_template, "t");
}

#[test]
fn security_preset_sets_security_choices() {
    let catalog = catalog();
    let mut state = UiState::new(&catalog);
    state.dns_template = "old".to_string();
    state.apply_preset(&catalog, Preset::Security);
    assert!(state.checked[catalog.feature_index("QuicAllowed").unwrap()]);
    assert!(!state.checked[catalog.feature_index("AutofillAddressEnabled").unwrap()]);
    assert_eq!(state.safe_browsing, Some(0));
    assert_eq!(state.dns_mode, 0);
    assert_eq!(state.dns_template, "");
    assert_eq!(state.permissions[catalog.permission_index("DefaultVideoCaptureSetting").unwrap()], 1);
    assert_eq!(state.permissions[catalog.permission_index("DefaultImagesSetting").unwrap()], 0);
    assert_eq!(state.permissions[catalog.permission_index("DefaultPopupsSetting").unwrap()], 2);
}

#[test]
fn snapshots_compare_by_content() {
    let catalog = catalog();
    let mut state = UiState::new(&catalog);
    state.checked[2] = true;
    let a = state.to_snapshot(&catalog);
    let b = state.to_snapshot(&catalog);
    assert!(a.same_as(&b));
    state.dns_mode = 1;
    let c = state.to_snapshot(&catalog);
    assert!(!a.same_as(&c));
    state.dns_mode = 0;
    state.permissions[0] = 1;
    let d = state.to_snapshot(&catalog);
    assert!(!a.same_as(&d));
}

#[test]
fn option_names_by_index() {
    assert_eq!(safe_browsing_option(0), "On");
    assert_eq!(safe_browsing_option(1), "Off");
    assert_eq!(dns_mode_option(0), "Automatic");
    assert_eq!(dns_mode_option(1), "Off");
    assert_eq!(dns_mode_option(2), "Secure");
    assert_eq!(dns_mode_option(3), "Custom");
}
