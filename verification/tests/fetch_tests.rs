use std::io::Write;

use slimbrave::domain::Browser;
use slimbrave::fetch::{
    brave_from_archive, brave_policies, chromium_definitions, chromium_from_archive,
    chromium_policies, clean_desc, decode_utf16_le, extend_policies, extract_attr, parse_adml,
    parse_admx, parse_simple_yaml, remote_catalog, template_key, BRAVE_SOURCE_URL,
    CHROMIUM_SOURCE_URL,
};
use slimbrave::keymap::KeyMap;
use slimbrave::catalog::RemotePolicy;

fn utf16_file(text: &str) -> Vec<u8> {
    let mut bytes = vec![0xFF, 0xFE];
    for unit in text.encode_utf16() {
        bytes.extend_from_slice(&unit.to_le_bytes());
    }
    bytes
}

fn tar_gz(files: &[(&str, &str)]) -> Vec<u8> {
    let encoder = flate2::write::GzEncoder::new(Vec::new(), flate2::Compression::default());
    let mut builder = tar::Builder::new(encoder);
    for (path, content) in files {
        let mut header = tar::Header::new_gnu();
        header.set_size(content.len() as u64);
        header.set_mode(0o644);
        header.set_cksum();
        builder.append_data(&mut header, path, content.as_bytes()).unwrap();
    }
    builder.into_inner().unwrap().finish().unwrap()
}

fn zip_archive(files: &[(&str, Vec<u8>)]) -> Vec<u8> {
    let mut writer = zip::ZipWriter::new(std::io::Cursor::new(Vec::new()));
    for (name, bytes) in files {
        writer
            .start_file(*name, zip::write::SimpleFileOptions::default())
            .unwrap();
        writer.write_all(bytes).unwrap();
    }
    writer.finish().unwrap().into_inner()
}

fn keys(list: &[&str]) -> Vec<String> {
    list.iter().map(|k| k.to_string()).collect()
}

fn existing() -> KeyMap<(String, String)> {
    let mut map = KeyMap::new();
    map.insert(
        "MetricsReportingEnabled".to_string(),
        ("Disable Metrics Reporting".to_string(), "Stops reports.".to_string()),
    );
    map.insert(
        "BraveRewardsDisabled".to_string(),
        ("Disable Brave Rewards".to_string(), "No rewards.".to_string()),
    );
    map
}

#[test]
fn parse_yaml_scalars_and_blocks() {
    let yaml = r#"caption: Enable reporting of usage data
desc: |-
  When this policy is Enabled, data is reported.

  Second paragraph.
type: boolean
supported_on:
- chrome.win:50-
features:
  dynamic_refresh: true
"#;
    let parsed = parse_simple_yaml(yaml);
    assert_eq!(parsed.get("caption").map(String::as_str), Some("Enable reporting of usage data"));
    assert!(parsed.get("desc").unwrap().contains("Second paragraph"));
    assert_eq!(parsed.get("type").map(String::as_str), Some("boolean"));
    assert!(parsed.get("supported_on").unwrap().contains("chrome.win:50-"));
}

#[test]
fn clean_desc_strips_markup_and_renames_product() {
    let desc = "About <ph name=\"PRODUCT_NAME\">$1<ex>Google Chrome</ex></ph> data\nfor $2 reports.";
    let cleaned = clean_desc(desc);
    assert!(!cleaned.contains('<'));
    assert!(cleaned.contains("Brave"));
    assert!(!cleaned.contains("$"));
}

#[test]
fn clean_desc_handles_empty() {
    assert_eq!(clean_desc(""), "");
}

#[test]
fn yaml_reads_inline_lists_comments_and_quotes() {
    let yaml = "# header\nname: \"Quoted\" # trailing\nlist: [a, 'b', , c]\nitems: - x\n  - \"y\"\nfolded: >-\n  one\n  two\n\n\n  indented: skipped\nempty:\n";
    let parsed = parse_simple_yaml(yaml);
    assert_eq!(parsed.get("name").map(String::as_str), Some("Quoted"));
    assert_eq!(parsed.get("list").map(String::as_str), Some("a,b,c"));
    assert_eq!(parsed.get("items").map(String::as_str), Some("x,y"));
    assert_eq!(parsed.get("folded").map(String::as_str), Some("  one\n  two\n\n\n  indented: skipped"));
    assert_eq!(parsed.get("empty").map(String::as_str), Some(""));
    assert!(parsed.get("indented").is_none());
}

#[test]
fn clean_desc_keeps_other_tags_and_collapses_blank_lines() {
    assert_eq!(clean_desc("  Use <b>Chrome</b>\n\n\n\nnow  "), "Use <b>Brave</b>\n\nnow");
    assert_eq!(clean_desc("open <tag"), "open <tag");
}

#[test]
fn adml_and_admx_are_read() {
    let adml = "<stringTable><string id=\"Foo\">Foo name</string><string id=\"Foo_Explain\"> Explains foo </string><string id=\"Broken\">no end</stringTable>";
    let strings = parse_adml(adml);
    assert_eq!(strings.get("Foo").map(String::as_str), Some("Foo name"));
    assert_eq!(strings.get("Foo_Explain").map(String::as_str), Some("Explains foo"));
    assert!(strings.get("Broken").is_none());

    let admx = [
        "<policies>",
        "<policy name=\"A\" class=\"Both\"><elements><boolean id=\"A\"/></elements></policy>",
        "<policy name=\"B\"><elements><decimal id=\"B\"/></elements></policy>",
        "<policy name=\"C\"><elements><list id=\"C\"/></elements></policy>",
        "<policy name=\"D\"><elements><enum id=\"D\"/></elements></policy>",
        "<policy name=\"E\"><enabledValue><decimal value=\"1\"/></enabledValue></policy>",
        "<policy name=\"F\"></policy>",
        "<policy class=\"NoName\"></policy>",
        "</policies>",
    ]
    .concat();
    let types = parse_admx(&admx);
    assert_eq!(types.get("A").map(String::as_str), Some("Bool"));
    assert_eq!(types.get("B").map(String::as_str), Some("Int"));
    assert_eq!(types.get("C").map(String::as_str), Some("Array"));
    assert_eq!(types.get("D").map(String::as_str), Some("Str"));
    assert_eq!(types.get("E").map(String::as_str), Some("Bool"));
    assert_eq!(types.get("F").map(String::as_str), Some("unknown"));
    assert_eq!(types.len(), 6);
}

#[test]
fn attributes_are_extracted() {
    let block: Vec<char> = "policy name=\"Foo\" class=\"Both\"".chars().collect();
    assert_eq!(extract_attr(&block, "name"), Some("Foo".to_string()));
    assert_eq!(extract_attr(&block, "class"), Some("Both".to_string()));
    assert_eq!(extract_attr(&block, "key"), None);
}

#[test]
fn utf16_files_decode_with_and_without_mark() {
    assert_eq!(decode_utf16_le(&utf16_file("héllo")), "héllo");
    assert_eq!(decode_utf16_le(&[0x41, 0x00, 0x42, 0x00, 0x43]), "AB");
    assert_eq!(decode_utf16_le(&[0x00, 0xD8]), "\u{FFFD}");
}

#[test]
fn utf16_pairs_join_and_lone_surrogates_are_replaced() {
    assert_eq!(decode_utf16_le(&[0x3D, 0xD8, 0x00, 0xDE]), "\u{1F600}");
    assert_eq!(decode_utf16_le(&[0x00, 0xDE, 0x41, 0x00]), "\u{FFFD}A");
    assert_eq!(decode_utf16_le(&[0x3D, 0xD8, 0x41, 0x00]), "\u{FFFD}A");
    assert_eq!(decode_utf16_le(&[0xFF, 0xFE, 0xAC, 0x20]), "\u{20AC}");
}

#[test]
fn template_keys_drop_the_yaml_suffix() {
    assert_eq!(template_key("MetricsReportingEnabled.yaml"), "MetricsReportingEnabled");
    assert_eq!(template_key("README.md"), "README.md");
    assert_eq!(template_key(".yaml"), "");
}

#[test]
fn chromium_archive_gives_metadata_of_catalog_keys() {
    let archive = tar_gz(&[
        ("policy/MetricsReportingEnabled.yaml", "caption: Enable <ph name=\"X\">Google Chrome</ph> reporting\ndesc: ''\ntype: main\n"),
        ("policy/NotInCatalog.yaml", "caption: Other\n"),
        ("policy/BraveRewardsDisabled.yaml", "desc: Rewards text\n"),
    ]);
    let policies = chromium_from_archive(
        &archive,
        &keys(&["MetricsReportingEnabled", "BraveRewardsDisabled", "Missing"]),
        &existing(),
    )
    .unwrap();
    assert_eq!(policies.len(), 2);
    let metrics = policies.get("MetricsReportingEnabled").unwrap();
    assert_eq!(metrics.name, "Enable Brave reporting");
    assert_eq!(metrics.tooltip, "Stops reports.");
    assert_eq!(metrics.kind, "main");
    let rewards = policies.get("BraveRewardsDisabled").unwrap();
    assert_eq!(rewards.name, "Disable Brave Rewards");
    assert_eq!(rewards.tooltip, "Rewards text");
    assert_eq!(rewards.kind, "unknown");
}

#[test]
fn chromium_archive_that_is_not_gzip_gives_nothing() {
    let result = chromium_from_archive(b"not an archive", &keys(&["A"]), &existing());
    assert!(result.unwrap().is_empty());
}

#[test]
fn chromium_definitions_keep_catalog_keys_with_text() {
    let files = vec![
        (Some("A.yaml".to_string()), Some("caption: one".to_string())),
        (Some("B.yaml".to_string()), None),
        (None, Some("caption: nameless".to_string())),
        (Some("A.yaml".to_string()), Some("caption: two".to_string())),
        (Some("C.yaml".to_string()), Some("caption: three".to_string())),
    ];
    let defs = chromium_definitions(&keys(&["A", "B"]), &files);
    assert_eq!(defs.len(), 1);
    assert_eq!(defs.get("A").map(String::as_str), Some("caption: two"));
}

#[test]
fn brave_archive_gives_metadata_of_catalog_keys() {
    let admx = "<policies><policy name=\"BraveRewardsDisabled\"><enabledValue><decimal value=\"1\"/></enabledValue></policy><policy name=\"TorDisabled\"><elements><boolean id=\"x\"/></elements></policy></policies>";
    let adml = "<string id=\"BraveRewardsDisabled\">Disable Rewards</string><string id=\"BraveRewardsDisabled_Explain\">Turns off Rewards.</string>";
    let archive = zip_archive(&[
        ("windows/admx/brave.admx", utf16_file(admx)),
        ("windows/admx/en-US/brave.adml", utf16_file(adml)),
    ]);
    let policies = brave_from_archive(
        &archive,
        &keys(&["BraveRewardsDisabled", "TorDisabled", "MetricsReportingEnabled"]),
        &existing(),
    )
    .unwrap();
    assert_eq!(policies.len(), 2);
    let rewards = policies.get("BraveRewardsDisabled").unwrap();
    assert_eq!(rewards.name, "Disable Rewards");
    assert_eq!(rewards.tooltip, "Turns off Rewards.");
    assert_eq!(rewards.kind, "Bool");
    let tor = policies.get("TorDisabled").unwrap();
    assert_eq!(tor.name, "TorDisabled");
    assert_eq!(tor.tooltip, "");
}

#[test]
fn brave_archive_reports_the_missing_file() {
    let archive = zip_archive(&[("windows/admx/brave.admx", utf16_file("<policies/>"))]);
    let err = match brave_from_archive(&archive, &keys(&["A"]), &existing()) {
        Err(e) => e,
        Ok(_) => panic!("the ADML file is missing"),
    };
    assert!(err.starts_with("brave.adml missing: "), "got {err}");
    let err = match brave_from_archive(b"junk", &keys(&["A"]), &existing()) {
        Err(e) => e,
        Ok(_) => panic!("junk is no archive"),
    };
    assert!(err.starts_with("brave zip parse failed: "), "got {err}");
}

#[test]
fn brave_policies_fall_back_to_catalog_texts() {
    let mut types = KeyMap::new();
    types.insert("MetricsReportingEnabled".to_string(), "Bool".to_string());
    let strings = KeyMap::new();
    let policies = brave_policies(&keys(&["MetricsReportingEnabled"]), &types, &strings, &existing());
    let p = policies.get("MetricsReportingEnabled").unwrap();
    assert_eq!(p.name, "Disable Metrics Reporting");
    assert_eq!(p.tooltip, "Stops reports.");
}

#[test]
fn chromium_policies_parse_definition_texts() {
    let mut defs = KeyMap::new();
    defs.insert("X".to_string(), "caption: Chrome thing\ntype: string\n".to_string());
    let policies = chromium_policies(&keys(&["X", "Y"]), &defs, &KeyMap::new());
    let p = policies.get("X").unwrap();
    assert_eq!(p.name, "Brave thing");
    assert_eq!(p.tooltip, "");
    assert_eq!(p.kind, "string");
    assert!(policies.get("Y").is_none());
}

#[test]
fn brave_metadata_replaces_chromium_metadata() {
    let mut base = KeyMap::new();
    base.insert(
        "A".to_string(),
        RemotePolicy { name: "old".to_string(), tooltip: "t".to_string(), kind: "k".to_string() },
    );
    base.insert(
        "B".to_string(),
        RemotePolicy { name: "keep".to_string(), tooltip: "t".to_string(), kind: "k".to_string() },
    );
    let mut more = KeyMap::new();
    more.insert(
        "A".to_string(),
        RemotePolicy { name: "new".to_string(), tooltip: "u".to_string(), kind: "Bool".to_string() },
    );
    extend_policies(&mut base, &more);
    assert_eq!(base.get("A").unwrap().name, "new");
    assert_eq!(base.get("B").unwrap().name, "keep");
    assert_eq!(base.len(), 2);
}

#[test]
fn remote_catalog_names_its_sources() {
    let brave = remote_catalog(Browser::Brave, KeyMap::new());
    assert_eq!(brave.version, "brave-official + chromium-main");
    assert_eq!(brave.source, format!("{CHROMIUM_SOURCE_URL}\n{BRAVE_SOURCE_URL}"));
    let chrome = remote_catalog(Browser::Chrome, KeyMap::new());
    assert_eq!(chrome.version, "chromium-main");
    assert_eq!(chrome.source, CHROMIUM_SOURCE_URL);
}
