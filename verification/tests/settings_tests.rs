use slimbrave::catalog::{RemoteCatalog, RemotePolicy};
use slimbrave::domain::{Browser, PlatformKind, WriteLevel};
use slimbrave::i18n::{message_id, option_key, requested_tag, suggestion_key, Lang};
use slimbrave::keymap::KeyMap;
use slimbrave::payload::{ApplyPlan, WriteValue};
use slimbrave::platform::{channels_for, plan_report};
use slimbrave::settings::{
    apply_status_key, display_name, display_tooltip, mac_pull_status_key, pull_status_key,
    toggle_status_key, write_level_key, write_level_of, ThemePref,
};

fn remote() -> RemoteCatalog {
    let mut policies = KeyMap::new();
    policies.insert(
        "WithName".to_string(),
        RemotePolicy { name: "Remote name".to_string(), tooltip: "Remote tip".to_string(), kind: "Bool".to_string() },
    );
    policies.insert(
        "Blank".to_string(),
        RemotePolicy { name: String::new(), tooltip: String::new(), kind: String::new() },
    );
    RemoteCatalog { version: "v".to_string(), source: "s".to_string(), policies }
}

#[test]
fn theme_preferences_read_back() {
    for pref in [ThemePref::System, ThemePref::Dark, ThemePref::Light] {
        assert_eq!(ThemePref::parse(pref.key()), Some(pref));
    }
    assert_eq!(ThemePref::parse("Dark"), None);
    assert_eq!(ThemePref::Light.key(), "light");
}

#[test]
fn write_levels_read_back() {
    assert_eq!(write_level_of(write_level_key(WriteLevel::Machine)), WriteLevel::Machine);
    assert_eq!(write_level_of(write_level_key(WriteLevel::User)), WriteLevel::User);
    assert_eq!(write_level_of("MACHINE"), WriteLevel::User);
    assert_eq!(write_level_of(""), WriteLevel::User);
}

#[test]
fn names_fall_back_in_order() {
    let r = remote();
    assert_eq!(display_name(Some("Localized"), "Catalog", Some(&r), "WithName"), "Localized");
    assert_eq!(display_name(None, "Catalog", Some(&r), "WithName"), "Catalog");
    assert_eq!(display_name(None, "", Some(&r), "WithName"), "Remote name");
    assert_eq!(display_name(None, "", Some(&r), "Blank"), "Blank");
    assert_eq!(display_name(None, "", Some(&r), "Unknown"), "Unknown");
    assert_eq!(display_name(None, "", None, "WithName"), "WithName");
}

#[test]
fn tooltips_fall_back_and_carry_the_note() {
    let r = remote();
    assert_eq!(display_tooltip(Some("L"), "C", Some(&r), "WithName", " [note]"), "L [note]");
    assert_eq!(display_tooltip(None, "C", Some(&r), "WithName", ""), "C");
    assert_eq!(display_tooltip(None, "", Some(&r), "WithName", "!"), "Remote tip!");
    assert_eq!(display_tooltip(None, "", Some(&r), "Blank", "!"), "Blank!");
    assert_eq!(display_tooltip(None, "", None, "K", ""), "K");
}

#[test]
fn status_messages_follow_the_outcome() {
    let channel = channels_for(Browser::Brave)[0];
    let plan = ApplyPlan { write: vec![("A".to_string(), WriteValue::Bool(true))], delete: vec![] };
    let removed = plan_report(&channel, &plan, false, String::new(), Some(true));
    let generated = plan_report(&channel, &plan, false, String::new(), None);
    let dry = plan_report(&channel, &plan, true, String::new(), None);
    assert_eq!(apply_status_key(PlatformKind::MacOs, &removed), "profile-removed");
    assert_eq!(apply_status_key(PlatformKind::MacOs, &generated), "profile-generated");
    assert_eq!(apply_status_key(PlatformKind::MacOs, &dry), "dry-run-report");
    assert_eq!(apply_status_key(PlatformKind::Windows, &removed), "applied");
    assert_eq!(mac_pull_status_key(true, true), "status-profile-legacy");
    assert_eq!(mac_pull_status_key(true, false), "status-profile-active");
    assert_eq!(mac_pull_status_key(false, true), "status-legacy-mode");
    assert_eq!(mac_pull_status_key(false, false), "status-no-policies");
    assert_eq!(pull_status_key(&vec![]), "settings-loaded");
    assert_eq!(pull_status_key(&vec!["w".to_string()]), "settings-loaded-warnings");
    assert_eq!(toggle_status_key(true), "policy-enabled");
    assert_eq!(toggle_status_key(false), "policy-disabled");
}

#[test]
fn message_ids_for_options_and_notes() {
    assert_eq!(option_key("Not Set"), "option-not-set");
    assert_eq!(option_key("Automatic"), "option-automatic");
    assert_eq!(option_key("Whatever"), "Whatever");
    assert_eq!(suggestion_key(true, true), "suggestion-tt");
    assert_eq!(suggestion_key(true, false), "suggestion-tf");
    assert_eq!(suggestion_key(false, true), "suggestion-ft");
    assert_eq!(suggestion_key(false, false), "suggestion-ff");
    assert_eq!(message_id("feature-", "QuicAllowed"), "feature-QuicAllowed");
}

#[test]
fn languages_follow_the_locale() {
    assert_eq!(requested_tag("zh_CN.UTF-8"), "zh-CN");
    assert_eq!(requested_tag("en"), "en");
    assert_eq!(Lang::for_locale(Some("zh_CN.UTF-8")), Lang::Zh);
    assert_eq!(Lang::for_locale(Some("zh_TW")), Lang::Zh);
    assert_eq!(Lang::for_locale(Some("en_US.UTF-8")), Lang::En);
    assert_eq!(Lang::for_locale(Some("de_DE.UTF-8")), Lang::En);
    assert_eq!(Lang::for_locale(Some("!!")), Lang::En);
    assert_eq!(Lang::for_locale(None), Lang::En);
    assert_eq!(Lang::all(), [Lang::En, Lang::Zh]);
    assert_eq!(Lang::Zh.label(), "中文");
    assert_eq!(Lang::En.tag(), "en");
}

#[test]
fn template_caches_are_named_by_browser() {
    assert_eq!(Browser::Brave.cache_file(), "catalog.remote-brave.json");
    assert_eq!(Browser::Chrome.cache_file(), "catalog.remote-chrome.json");
}
