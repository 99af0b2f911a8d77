use slimbrave::catalog::{
    build_catalog, Catalog, JsonValue, PolicyValue, RawCatalog, RawFeature, RawPermission,
    kind_default_value, RawPresets, RemoteCatalog, RemotePolicy, UserCatalog, UserFeature,
    UserPermission,
};
use slimbrave::keymap::KeyMap;

const FEATURES: &[(&str, &str, bool, bool)] = &[
    ("MetricsReportingEnabled", "Disable Metrics Reporting", true, true),
    ("SafeBrowsingExtendedReportingEnabled", "Disable Safe Browsing Reporting", true, true),
    ("UrlKeyedAnonymizedDataCollectionEnabled", "Disable URL Data Collection", true, true),
    ("FeedbackSurveysEnabled", "Disable Feedback Surveys", true, true),
    ("BraveP3AEnabled", "Disable P3A Telemetry", true, true),
    ("BraveStatsPingEnabled", "Disable Daily Stats Ping", true, true),
    ("BraveWebDiscoveryEnabled", "Disable Web Discovery", true, true),
    ("AutofillAddressEnabled", "Disable Autofill (Addresses)", true, false),
    ("AutofillCreditCardEnabled", "Disable Autofill (Credit Cards)", true, false),
    ("PasswordManagerEnabled", "Disable Password Manager", true, false),
    ("BrowserSignin", "Disable Browser Sign-in", true, false),
    ("WebRtcIPHandling", "Disable WebRTC IP Leak", true, true),
    ("QuicAllowed", "Disable QUIC Protocol", false, true),
    ("BlockThirdPartyCookies", "Block Third Party Cookies", true, true),
    ("EnableDoNotTrack", "Enable Do Not Track", true, true),
    ("GlobalPrivacyControlEnabled", "Enable Global Privacy Control", true, true),
    ("BraveDeAMPEnabled", "Enable De-AMP", true, true),
    ("BraveDebouncingEnabled", "Enable Debouncing", true, true),
    ("BraveTrackersStrippingEnabled", "Strip URL Trackers", true, true),
    ("ReduceAcceptLanguage", "Reduce Language Fingerprinting", true, true),
    ("ForceGoogleSafeSearch", "Force Google SafeSearch", false, true),
    ("IPFSEnabled", "Disable IPFS", true, true),
    ("IncognitoModeAvailability", "Force Incognito Mode", false, false),
    ("PromptForDownloadLocation", "Force Download Prompts", true, true),
    ("ClearBrowsingDataOnExitList", "Clear Data on Exit", true, false),
    ("HttpsOnlyMode", "Force HTTPS-Only Mode", true, true),
    ("BraveRewardsDisabled", "Disable Brave Rewards", true, true),
    ("BraveWalletDisabled", "Disable Brave Wallet", true, true),
    ("BraveVPNDisabled", "Disable Brave VPN", true, true),
    ("BraveAIChatEnabled", "Disable Brave AI Chat", true, true),
    ("TorDisabled", "Disable Tor", true, true),
    ("SyncDisabled", "Disable Sync", false, true),
    ("BraveNewsDisabled", "Disable Brave News", true, true),
    ("BraveTalkDisabled", "Disable Brave Talk", true, true),
    ("BraveSpeedreaderEnabled", "Disable Speedreader", true, true),
    ("BraveWaybackMachineEnabled", "Disable Wayback Machine Prompts", true, true),
    ("BackgroundModeEnabled", "Disable Background Mode", true, true),
    ("MediaRecommendationsEnabled", "Disable Media Recommendations", true, false),
    ("ShoppingListEnabled", "Disable Shopping List", true, false),
    ("AlwaysOpenPdfExternally", "Always Open PDF Externally", true, true),
    ("TranslateEnabled", "Disable Translate", false, false),
    ("SpellcheckEnabled", "Disable Spellcheck", false, false),
    ("PromotionsEnabled", "Disable Promotions", true, false),
    ("SearchSuggestEnabled", "Disable Search Suggestions", true, false),
    ("PrintingEnabled", "Disable Printing", false, false),
    ("DefaultBrowserSettingEnabled", "Disable Default Browser Prompt", true, false),
    ("DeveloperToolsDisabled", "Disable Developer Tools", false, true),
    ("BravePlaylistEnabled", "Disable Brave Playlist", true, true),
];

const PERMISSIONS: &[(&str, &str, &[&str])] = &[
    ("DefaultGeolocationSetting", "Location", &["Not Set", "Ask", "Block", "Allow"]),
    ("DefaultVideoCaptureSetting", "Camera", &["Not Set", "Ask", "Block", "Allow"]),
    ("DefaultAudioCaptureSetting", "Microphone", &["Not Set", "Ask", "Block", "Allow"]),
    ("DefaultNotificationsSetting", "Notifications", &["Not Set", "Ask", "Block", "Allow"]),
    ("DefaultJavaScriptSetting", "JavaScript", &["Not Set", "Allow", "Block"]),
    ("DefaultImagesSetting", "Images", &["Not Set", "Allow", "Block"]),
    ("DefaultPopupsSetting", "Pop-ups", &["Not Set", "Allow", "Block"]),
    ("DefaultWebUsbGuardSetting", "USB Devices", &["Not Set", "Ask", "Block"]),
    ("DefaultSerialGuardSetting", "Serial Ports", &["Not Set", "Ask", "Block"]),
    ("DefaultWebHidGuardSetting", "HID Devices", &["Not Set", "Ask", "Block"]),
    ("DefaultFileSystemReadGuardSetting", "File System", &["Not Set", "Ask", "Block"]),
    ("DefaultClipboardSetting", "Clipboard", &["Not Set", "Ask", "Block"]),
    ("DefaultWindowPlacementSetting", "Window Management", &["Not Set", "Ask", "Block"]),
    ("DefaultLocalFontsSetting", "Local Fonts", &["Not Set", "Ask", "Block"]),
    ("PaymentMethodQueryEnabled", "Payment Handlers", &["Not Set", "Allow", "Block"]),
];

fn texts(items: &[&str]) -> Vec<String> {
    items.iter().map(|s| s.to_string()).collect()
}

fn feature_value(key: &str) -> JsonValue {
    match key {
        "BrowserSignin" => JsonValue::Int(0),
        "IncognitoModeAvailability" => JsonValue::Int(2),
        "WebRtcIPHandling" => JsonValue::Str("disable_non_proxied_udp".to_string()),
        "HttpsOnlyMode" => JsonValue::Str("force_enabled".to_string()),
        "ClearBrowsingDataOnExitList" => {
            JsonValue::Array(texts(&["browsing_history", "cookies_and_other_site_data"]))
        }
        "BlockThirdPartyCookies" | "EnableDoNotTrack" | "GlobalPrivacyControlEnabled"
        | "BraveDeAMPEnabled" | "BraveDebouncingEnabled" | "BraveTrackersStrippingEnabled"
        | "ReduceAcceptLanguage" | "ForceGoogleSafeSearch" | "PromptForDownloadLocation"
        | "AlwaysOpenPdfExternally" => JsonValue::Bool(true),
        other if other.ends_with("Disabled") => JsonValue::Bool(true),
        _ => JsonValue::Bool(false),
    }
}

fn section(index: usize) -> &'static str {
    if index < 7 {
        "telemetry"
    } else if index < 26 {
        "privacy"
    } else if index < 36 {
        "brave"
    } else {
        "perf"
    }
}

fn raw_catalog() -> RawCatalog {
    let features = FEATURES
        .iter()
        .enumerate()
        .map(|(index, (key, name, privacy, security))| RawFeature {
            key: key.to_string(),
            name: name.to_string(),
            tooltip: if *key == "MetricsReportingEnabled" {
                "Stops Brave from sending anonymous usage and crash reports.".to_string()
            } else {
                format!("{name}.")
            },
            value: Some(feature_value(key)),
            windows_value: if *key == "BraveP3AEnabled" {
                Some(JsonValue::Str("Disabled".to_string()))
            } else {
                None
            },
            privacy: *privacy,
            security: *security,
            section: section(index).to_string(),
        })
        .collect();
    let permissions = PERMISSIONS
        .iter()
        .map(|(key, name, options)| RawPermission {
            key: key.to_string(),
            name: name.to_string(),
            tooltip: format!("{name} permission."),
            options: texts(options),
        })
        .collect();
    RawCatalog {
        features,
        permissions,
        presets: RawPresets {
            privacy: FEATURES.iter().filter(|f| f.2).map(|f| f.0.to_string()).collect(),
            security: FEATURES.iter().filter(|f| f.3).map(|f| f.0.to_string()).collect(),
        },
    }
}

fn catalog() -> Catalog {
    Catalog::from_raw(&raw_catalog())
}

fn no_presets() -> RawPresets {
    RawPresets { privacy: vec![], security: vec![] }
}

fn empty_user() -> UserCatalog {
    UserCatalog { features: vec![], permissions: vec![], remove: vec![], presets: no_presets() }
}

#[test]
fn user_layer_overrides_adds_and_removes() {
    let mut catalog = catalog();
    let user = UserCatalog {
        features: vec![
            UserFeature {
                key: "MetricsReportingEnabled".to_owned(),
                name: Some("My Metric Toggle".to_owned()),
                tooltip: None,
                value: None,
                windows_value: None,
                privacy: Some(false),
                security: None,
                section: None,
            },
            UserFeature {
                key: "MyCustomPolicy".to_owned(),
                name: Some("Custom Policy".to_owned()),
                tooltip: Some("A user-defined policy".to_owned()),
                value: Some(JsonValue::Bool(true)),
                windows_value: None,
                privacy: Some(true),
                security: Some(true),
                section: Some("privacy".to_owned()),
            },
        ],
        permissions: vec![],
        remove: vec!["AutofillAddressEnabled".to_owned()],
        presets: no_presets(),
    };
    catalog.merge_user(&user);

    let feature = catalog.feature_by_key("MetricsReportingEnabled").unwrap();
    assert_eq!(feature.name, "My Metric Toggle");
    assert_eq!(feature.tooltip, "Stops Brave from sending anonymous usage and crash reports.");
    assert!(!feature.privacy);

    assert!(catalog.feature_by_key("AutofillAddressEnabled").is_none());
    let custom = catalog.feature_by_key("MyCustomPolicy").unwrap();
    assert_eq!(custom.value, PolicyValue::Bool(true));
    assert_eq!(custom.section, "privacy");
    assert_eq!(catalog.features.len(), 48);
}

#[test]
fn managed_keys_covers_catalog_and_special_keys() {
    let catalog = catalog();
    let keys = catalog.managed_keys();
    assert!(keys.iter().any(|k| k == "MetricsReportingEnabled"));
    assert!(keys.iter().any(|k| k == "DefaultGeolocationSetting"));
    assert!(keys.iter().any(|k| k == "SafeBrowsingProtectionLevel"));
    assert!(keys.iter().any(|k| k == "DnsOverHttpsTemplates"));
}

#[test]
fn catalog_from_file_keeps_order_and_defaults() {
    let catalog = catalog();
    assert_eq!(catalog.features.len(), 48);
    assert_eq!(catalog.permissions.len(), 15);
    assert_eq!(catalog.privacy_keys.len(), 40);
    for (expected, actual) in FEATURES.iter().zip(catalog.features.iter()) {
        assert_eq!(actual.key, expected.0);
        assert_eq!(actual.name, expected.1);
        assert_eq!((actual.privacy, actual.security), (expected.2, expected.3));
    }
    let raw = RawCatalog {
        features: vec![RawFeature {
            key: "K".to_string(),
            name: "N".to_string(),
            tooltip: "T".to_string(),
            value: None,
            windows_value: None,
            privacy: false,
            security: false,
            section: String::new(),
        }],
        permissions: vec![],
        presets: no_presets(),
    };
    let small = Catalog::from_raw(&raw);
    assert_eq!(small.features[0].value, PolicyValue::Bool(false));
    assert_eq!(small.features[0].section, "custom");
    assert!(small.features[0].windows_value.is_none());
}

#[test]
fn managed_keys_are_ascending_and_distinct() {
    let catalog = catalog();
    let keys = catalog.managed_keys();
    assert_eq!(keys.len(), 48 + 15 + 4);
    for pair in keys.windows(2) {
        assert!(pair[0] < pair[1]);
    }
}

#[test]
fn merge_overrides_permissions_and_presets() {
    let mut catalog = catalog();
    let user = UserCatalog {
        features: vec![UserFeature {
            key: "Fresh".to_owned(),
            name: None,
            tooltip: None,
            value: None,
            windows_value: Some(JsonValue::Int(4)),
            privacy: None,
            security: None,
            section: None,
        }],
        permissions: vec![
            UserPermission {
                key: "DefaultImagesSetting".to_owned(),
                name: Some("Pictures".to_owned()),
                tooltip: None,
                options: Some(vec!["Not Set".to_owned(), "Block".to_owned()]),
            },
            UserPermission { key: "NewPerm".to_owned(), name: None, tooltip: None, options: None },
        ],
        remove: vec!["DefaultPopupsSetting".to_owned(), "QuicAllowed".to_owned()],
        presets: RawPresets { privacy: vec!["Fresh".to_owned()], security: vec![] },
    };
    catalog.merge_user(&user);
    let fresh = catalog.feature_by_key("Fresh").unwrap();
    assert_eq!(fresh.name, "Fresh");
    assert_eq!(fresh.tooltip, "");
    assert_eq!(fresh.value, PolicyValue::Bool(false));
    assert_eq!(fresh.windows_value, Some(PolicyValue::Int(4)));
    assert_eq!(fresh.section, "custom");
    assert!(!fresh.privacy && !fresh.security);
    assert_eq!(catalog.features.len(), 48);
    assert!(catalog.feature_by_key("QuicAllowed").is_none());
    assert!(catalog.permission_by_key("DefaultPopupsSetting").is_none());
    let images = catalog.permission_by_key("DefaultImagesSetting").unwrap();
    assert_eq!(images.name, "Pictures");
    assert_eq!(images.tooltip, "Images permission.");
    assert_eq!(images.options, vec!["Not Set".to_owned(), "Block".to_owned()]);
    let new_perm = catalog.permission_by_key("NewPerm").unwrap();
    assert_eq!(new_perm.name, "NewPerm");
    assert!(new_perm.options.is_empty());
    assert_eq!(catalog.permissions.len(), 15);
    assert_eq!(catalog.permissions[14].key, "NewPerm");
    assert_eq!(catalog.privacy_keys, vec!["Fresh".to_owned()]);
    assert_eq!(catalog.security_keys.len(), 34);
}

#[test]
fn build_catalog_merges_the_user_layer() {
    let raw = raw_catalog();
    let plain = build_catalog(&raw, None, None);
    assert_eq!(plain.features.len(), 48);
    let mut user = empty_user();
    user.remove.push("MetricsReportingEnabled".to_owned());
    let merged = build_catalog(&raw, None, Some(&user));
    assert_eq!(merged.features.len(), 47);
    assert_eq!(merged.features[0].key, "SafeBrowsingExtendedReportingEnabled");
}

fn policy(name: &str, tooltip: &str) -> RemotePolicy {
    RemotePolicy { name: name.to_owned(), tooltip: tooltip.to_owned(), kind: "main".to_owned() }
}

fn templates() -> RemoteCatalog {
    let mut policies = KeyMap::new();
    policies.insert("QuicAllowed".to_owned(), policy("Allow QUIC protocol", "Enables QUIC."));
    policies.insert("TorDisabled".to_owned(), policy("", "Disables Tor windows."));
    policies.insert("NotInCatalog".to_owned(), policy("Elsewhere", "Not a catalog feature."));
    RemoteCatalog { version: "1".to_owned(), source: "test".to_owned(), policies }
}

#[test]
fn remote_layer_sits_between_builtin_and_user() {
    let raw = raw_catalog();
    let remote = templates();
    let with_remote = build_catalog(&raw, Some(&remote), None);
    assert_eq!(with_remote.features.len(), 48);
    let quic = with_remote.feature_by_key("QuicAllowed").unwrap();
    assert_eq!(quic.name, "Allow QUIC protocol");
    assert_eq!(quic.tooltip, "Enables QUIC.");
    let tor = with_remote.feature_by_key("TorDisabled").unwrap();
    assert_eq!(tor.name, "Disable Tor");
    assert_eq!(tor.tooltip, "Disables Tor windows.");
    assert_eq!(with_remote.feature_by_key("SyncDisabled").unwrap().name, "Disable Sync");
    assert!(with_remote.feature_by_key("NotInCatalog").is_none());

    let mut user = empty_user();
    user.features.push(UserFeature {
        key: "QuicAllowed".to_owned(),
        name: Some("My QUIC".to_owned()),
        tooltip: None,
        value: None,
        windows_value: None,
        privacy: None,
        security: None,
        section: None,
    });
    let layered = build_catalog(&raw, Some(&remote), Some(&user));
    let quic = layered.feature_by_key("QuicAllowed").unwrap();
    assert_eq!(quic.name, "My QUIC");
    assert_eq!(quic.tooltip, "Enables QUIC.");
}

fn added(key: &str) -> UserFeature {
    UserFeature {
        key: key.to_owned(),
        name: None,
        tooltip: None,
        value: None,
        windows_value: None,
        privacy: None,
        security: None,
        section: None,
    }
}

#[test]
fn added_policies_take_template_metadata() {
    let raw = raw_catalog();
    let mut policies = KeyMap::new();
    policies.insert(
        "HomepageLocation".to_owned(),
        RemotePolicy {
            name: "Configure the home page URL".to_owned(),
            tooltip: "Sets the default home page URL.".to_owned(),
            kind: "string".to_owned(),
        },
    );
    policies.insert(
        "DiskCacheSize".to_owned(),
        RemotePolicy { name: String::new(), tooltip: String::new(), kind: "Int".to_owned() },
    );
    let remote = RemoteCatalog { version: "1".to_owned(), source: "test".to_owned(), policies };
    let mut user = empty_user();
    user.features.push(added("HomepageLocation"));
    user.features.push(added("DiskCacheSize"));
    user.features.push(added("Unknown"));
    let mut named = added("Named");
    named.name = Some("Mine".to_owned());
    named.value = Some(JsonValue::Bool(true));
    user.features.push(named);

    let catalog = build_catalog(&raw, Some(&remote), Some(&user));
    let home = catalog.feature_by_key("HomepageLocation").unwrap();
    assert_eq!(home.name, "Configure the home page URL");
    assert_eq!(home.tooltip, "Sets the default home page URL.");
    assert_eq!(home.value, PolicyValue::Str(String::new()));
    assert_eq!(home.section, "custom");
    let cache = catalog.feature_by_key("DiskCacheSize").unwrap();
    assert_eq!(cache.name, "DiskCacheSize");
    assert_eq!(cache.tooltip, "");
    assert_eq!(cache.value, PolicyValue::Int(0));
    let unknown = catalog.feature_by_key("Unknown").unwrap();
    assert_eq!(unknown.name, "Unknown");
    assert_eq!(unknown.value, PolicyValue::Bool(false));
    assert_eq!(catalog.feature_by_key("Named").unwrap().name, "Mine");

    let without = build_catalog(&raw, None, Some(&user));
    assert_eq!(without.feature_by_key("HomepageLocation").unwrap().name, "HomepageLocation");
    assert_eq!(without.feature_by_key("HomepageLocation").unwrap().value, PolicyValue::Bool(false));
}

#[test]
fn template_kinds_give_starting_values() {
    assert_eq!(kind_default_value("Bool"), PolicyValue::Bool(false));
    assert_eq!(kind_default_value("main"), PolicyValue::Bool(false));
    assert_eq!(kind_default_value("int-enum"), PolicyValue::Int(0));
    assert_eq!(kind_default_value("Str"), PolicyValue::Str(String::new()));
    assert_eq!(kind_default_value("list"), PolicyValue::Array(Vec::new()));
    assert_eq!(kind_default_value("dict"), PolicyValue::Bool(false));
}

#[test]
fn merge_remote_leaves_permissions_and_presets() {
    let mut catalog = catalog();
    let before_perms = catalog.permissions.len();
    let before_privacy = catalog.privacy_keys.clone();
    catalog.merge_remote(&templates());
    assert_eq!(catalog.permissions.len(), before_perms);
    assert_eq!(catalog.privacy_keys, before_privacy);
    assert_eq!(catalog.feature_by_key("QuicAllowed").unwrap().name, "Allow QUIC protocol");
}

#[test]
fn toggling_a_policy_edits_the_remove_list() {
    let mut user = empty_user();
    assert!(user.is_empty());
    user.set_policy_enabled("QuicAllowed", false);
    user.set_policy_enabled("QuicAllowed", false);
    assert_eq!(user.remove, vec!["QuicAllowed".to_owned()]);
    assert!(!user.is_empty());
    user.remove.push("Other".to_owned());
    user.remove.push("QuicAllowed".to_owned());
    user.set_policy_enabled("QuicAllowed", true);
    assert_eq!(user.remove, vec!["Other".to_owned()]);
    let mut catalog = catalog();
    let mut off = empty_user();
    off.set_policy_enabled("TorDisabled", false);
    catalog.merge_user(&off);
    assert!(catalog.feature_by_key("TorDisabled").is_none());
}

#[test]
fn lookups_find_the_first_entry_of_a_key() {
    let catalog = catalog();
    assert_eq!(catalog.feature_index("MetricsReportingEnabled"), Some(0));
    assert_eq!(catalog.feature_index("BravePlaylistEnabled"), Some(47));
    assert_eq!(catalog.feature_index("Nope"), None);
    assert_eq!(catalog.permission_index("PaymentMethodQueryEnabled"), Some(14));
    assert!(catalog.permission_by_key("Nope").is_none());
    let keys = catalog.feature_key_list();
    assert_eq!(keys.len(), 48);
    assert_eq!(keys[4], "BraveP3AEnabled");
    let texts = catalog.feature_texts();
    assert_eq!(
        texts.get("MetricsReportingEnabled"),
        Some(&(
            "Disable Metrics Reporting".to_string(),
            "Stops Brave from sending anonymous usage and crash reports.".to_string()
        ))
    );
}

#[test]
fn policy_values_convert() {
    assert_eq!(PolicyValue::Bool(true).as_string(), Some("true".to_string()));
    assert_eq!(PolicyValue::Int(-12).as_string(), Some("-12".to_string()));
    assert_eq!(
        PolicyValue::Array(vec!["a".to_string(), "b".to_string()]).as_string(),
        Some("a,b".to_string())
    );
    assert_eq!(PolicyValue::Bool(true).as_int(), Some(1));
    assert_eq!(PolicyValue::Str("5".to_string()).as_int(), None);
    assert_eq!(PolicyValue::Str("ON".to_string()).as_bool(), Some(true));
    assert_eq!(PolicyValue::Str("No".to_string()).as_bool(), Some(false));
    assert_eq!(PolicyValue::Str("maybe".to_string()).as_bool(), None);
    assert_eq!(PolicyValue::Int(0).as_bool(), Some(false));
    assert_eq!(PolicyValue::Array(vec![]).as_bool(), None);
    assert_eq!(PolicyValue::Int(3).as_array(), None);
    assert_eq!(JsonValue::Str("x".to_string()).to_policy(), PolicyValue::Str("x".to_string()));
}
