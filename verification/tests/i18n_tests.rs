use slimbrave::i18n::{lang_of_negotiated, message_or_id, text_or_id, I18n, Lang, MessageArg};

const EN: &str = "\
btn-apply = Apply Settings
section-telemetry = Telemetry and Reporting
option-not-set = Not Set
feature-MetricsReportingEnabled = Disable Metrics Reporting
feature-tip-MetricsReportingEnabled = Stops Brave from sending usage metrics.
permission-DefaultGeolocationSetting = Location
permission-tip-DefaultGeolocationSetting = Sites asking for your location.
suggestion-tt = {\" \"}(Ticked by both presets)
suggestion-tf = {\" \"}(Ticked by the privacy preset)
suggestion-ft = {\" \"}(Ticked by the security preset)
suggestion-ff = {\" \"}(Ticked by neither preset)
settings-loaded = Loaded settings from { $channel }.
fetch-ok = Fetched { $count } policies.
";

const ZH: &str = "\
btn-apply = 应用设置
section-telemetry = 遥测与报告
option-not-set = 未设置
feature-MetricsReportingEnabled = 禁用指标上报
feature-tip-MetricsReportingEnabled = 停止 Brave 发送匿名使用数据和崩溃报告。
permission-DefaultGeolocationSetting = 位置
permission-tip-DefaultGeolocationSetting = 请求你位置的网站。
suggestion-tt = （两个预设都会勾选）
suggestion-tf = （隐私预设会勾选）
suggestion-ft = （安全预设会勾选）
suggestion-ff = （预设都不勾选）
settings-loaded = 已从 { $channel } 加载设置。
fetch-ok = 已获取 { $count } 条策略。
";

fn texts(lang: Lang) -> I18n {
    I18n::with_lang(lang, EN, ZH)
}

#[test]
fn english_returns_keys() {
    let i18n = texts(Lang::En);
    assert_eq!(i18n.t("btn-apply"), "Apply Settings");
    assert_eq!(i18n.t("section-telemetry"), "Telemetry and Reporting");
}

#[test]
fn chinese_translates_ui_and_features() {
    let i18n = texts(Lang::Zh);
    assert_eq!(i18n.t("btn-apply"), "应用设置");
    assert_eq!(
        i18n.feature_name("MetricsReportingEnabled"),
        Some("禁用指标上报".to_owned())
    );
    assert_eq!(
        i18n.feature_tooltip("MetricsReportingEnabled"),
        Some("停止 Brave 发送匿名使用数据和崩溃报告。".to_owned())
    );
    assert_eq!(i18n.permission_name("DefaultGeolocationSetting"), Some("位置".to_owned()));
    assert_eq!(i18n.option("Not Set"), "未设置");
}

#[test]
fn missing_keys_fall_back_to_key() {
    let i18n = texts(Lang::Zh);
    assert_eq!(i18n.t("no-such-key"), "no-such-key");
    assert_eq!(i18n.feature_name("NotARealKey"), None);
}

#[test]
fn suggestion_text_localized() {
    let en = texts(Lang::En);
    assert!(en.suggestion_text(true, true).contains("Ticked"));
    let zh = texts(Lang::Zh);
    assert!(zh.suggestion_text(true, true).contains("勾选"));
}

#[test]
fn each_suggestion_flag_pair_has_its_message() {
    let en = texts(Lang::En);
    assert!(en.suggestion_text(true, false).contains("privacy preset"));
    assert!(en.suggestion_text(false, true).contains("security preset"));
    assert!(en.suggestion_text(false, false).contains("neither"));
}

#[test]
fn permission_tooltips_and_unknown_options() {
    let en = texts(Lang::En);
    assert_eq!(
        en.permission_tooltip("DefaultGeolocationSetting"),
        Some("Sites asking for your location.".to_owned())
    );
    assert_eq!(en.permission_tooltip("Unknown"), None);
    assert_eq!(en.option("Not Set"), "Not Set");
    assert_eq!(en.option("Sometimes"), "Sometimes");
    assert_eq!(en.option("Ask"), "option-ask");
}

#[test]
fn switching_language_keeps_both_files() {
    let mut i18n = texts(Lang::En);
    assert_eq!(i18n.lang(), Lang::En);
    i18n.set_lang(Lang::Zh);
    assert_eq!(i18n.lang(), Lang::Zh);
    assert_eq!(i18n.t("btn-apply"), "应用设置");
    i18n.set_lang(Lang::Zh);
    i18n.set_lang(Lang::En);
    assert_eq!(i18n.t("btn-apply"), "Apply Settings");
}

#[test]
fn locale_picks_the_language() {
    assert_eq!(I18n::new(Some("zh_CN.UTF-8"), EN, ZH).lang(), Lang::Zh);
    assert_eq!(I18n::new(Some("en_US.UTF-8"), EN, ZH).lang(), Lang::En);
    assert_eq!(I18n::new(None, EN, ZH).lang(), Lang::En);
}

#[test]
fn lookup_falls_back_on_a_broken_file_or_tag() {
    assert_eq!(text_or_id("btn-apply = Apply", "en", "btn-apply"), "Apply");
    assert_eq!(text_or_id("btn-apply = {", "en", "btn-apply"), "btn-apply");
    assert_eq!(text_or_id("a = 1\na = 2\n", "en", "a"), "a");
    assert_eq!(text_or_id("btn-apply = Apply", "not a tag!", "btn-apply"), "btn-apply");
    assert_eq!(text_or_id("title =\n    .tip = only an attribute\n", "en", "title"), "title");
}

#[test]
fn found_text_or_identifier() {
    assert_eq!(message_or_id(Some("Apply".to_owned()), "btn-apply"), "Apply");
    assert_eq!(message_or_id(None, "btn-apply"), "btn-apply");
}

#[test]
fn the_first_negotiated_tag_picks_the_language() {
    assert_eq!(lang_of_negotiated(&Some(vec!["zh".to_owned(), "en".to_owned()])), Lang::Zh);
    assert_eq!(lang_of_negotiated(&Some(vec!["en".to_owned(), "zh".to_owned()])), Lang::En);
    assert_eq!(lang_of_negotiated(&Some(vec!["zh-CN".to_owned()])), Lang::En);
    assert_eq!(lang_of_negotiated(&Some(Vec::new())), Lang::En);
    assert_eq!(lang_of_negotiated(&None), Lang::En);
}

#[test]
fn args_interpolate() {
    let i18n = texts(Lang::Zh);
    let rendered = i18n.t_args(
        "settings-loaded",
        &vec![("channel".to_owned(), MessageArg::Text("Release".to_string()))],
    );
    assert!(rendered.starts_with("已从"), "got: {rendered}");
    assert!(rendered.contains("Release"), "got: {rendered}");
    assert!(rendered.ends_with("加载设置。"), "got: {rendered}");
}

#[test]
fn number_arguments_and_missing_messages() {
    let i18n = texts(Lang::En);
    let rendered = i18n.t_args("fetch-ok", &vec![("count".to_owned(), MessageArg::Number(42))]);
    assert!(rendered.starts_with("Fetched "), "got: {rendered}");
    assert!(rendered.contains("42"), "got: {rendered}");
    let missing = i18n.t_args("no-such-key", &vec![("count".to_owned(), MessageArg::Number(1))]);
    assert_eq!(missing, "no-such-key");
    let unset = i18n.t_args("fetch-ok", &Vec::new());
    assert!(unset.contains("$count"), "got: {unset}");
}
