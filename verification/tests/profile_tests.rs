use slimbrave::keymap::KeyMap;
use slimbrave::payload::{Payload, WriteValue};
use slimbrave::profile::{
    build_mobileconfig, profile_identifier, stable_uuid, to_plist_value, PlistValue,
};

fn payload() -> Payload {
    let mut map = KeyMap::new();
    map.insert("BraveRewardsDisabled".to_owned(), WriteValue::Bool(true));
    map.insert("BrowserSignin".to_owned(), WriteValue::Int(0));
    map.insert("DnsOverHttpsMode".to_owned(), WriteValue::Str("off".to_owned()));
    map.insert(
        "ClearBrowsingDataOnExitList".to_owned(),
        WriteValue::Array(vec!["browsing_history".to_owned(), "cookies_and_other_site_data".to_owned()]),
    );
    map
}

fn get<'a>(value: &'a PlistValue, key: &str) -> Option<&'a PlistValue> {
    match value {
        PlistValue::Dictionary(entries) => entries.iter().find(|(k, _)| k == key).map(|(_, v)| v),
        _ => None,
    }
}

fn as_string(value: &PlistValue) -> Option<&str> {
    match value {
        PlistValue::String(s) => Some(s.as_str()),
        _ => None,
    }
}

fn as_array(value: &PlistValue) -> Option<&Vec<PlistValue>> {
    match value {
        PlistValue::Array(items) => Some(items),
        _ => None,
    }
}

#[test]
fn mobileconfig_structure_is_valid() {
    let domain = "com.brave.Browser";
    let config = build_mobileconfig(domain, &payload());

    assert_eq!(as_string(get(&config, "PayloadType").unwrap()).unwrap(), "Configuration");
    assert_eq!(as_string(get(&config, "PayloadScope").unwrap()).unwrap(), "System");
    assert_eq!(
        as_string(get(&config, "PayloadIdentifier").unwrap()).unwrap(),
        "com.slimbrave.profile.com.brave.Browser"
    );
    assert_eq!(
        as_string(get(&config, "PayloadDisplayName").unwrap()).unwrap(),
        "SlimBrave Policy (com.brave.Browser)"
    );

    let content = as_array(get(&config, "PayloadContent").unwrap()).unwrap();
    let main = &content[0];
    assert_eq!(
        as_string(get(main, "PayloadType").unwrap()).unwrap(),
        "com.apple.ManagedClient.preferences"
    );
    let domain_dict = get(main, "PayloadContent").unwrap();
    let forced = as_array(get(get(domain_dict, domain).unwrap(), "Forced").unwrap()).unwrap();
    let mcx = get(&forced[0], "mcx_preference_settings").unwrap();
    assert!(matches!(get(mcx, "BraveRewardsDisabled"), Some(PlistValue::Boolean(true))));
    assert!(matches!(get(mcx, "BrowserSignin"), Some(PlistValue::Integer(0))));
    assert_eq!(as_string(get(mcx, "DnsOverHttpsMode").unwrap()).unwrap(), "off");
    assert_eq!(as_array(get(mcx, "ClearBrowsingDataOnExitList").unwrap()).unwrap().len(), 2);
}

#[test]
fn uuids_are_stable() {
    let domain = "com.brave.Browser";
    let a = build_mobileconfig(domain, &payload());
    let b = build_mobileconfig(domain, &payload());
    assert_eq!(
        as_string(get(&a, "PayloadUUID").unwrap()),
        as_string(get(&b, "PayloadUUID").unwrap())
    );
}

#[test]
fn uuids_are_upper_case_name_based() {
    let id = stable_uuid("com.slimbrave.profile.com.brave.Browser");
    assert_eq!(id.len(), 36);
    assert_eq!(id, id.to_uppercase());
    assert_ne!(id, id.to_lowercase());
    assert_eq!(stable_uuid("python.org"), "886313E1-3B8A-5372-9B90-0C9AEE199E5D");
    let config = build_mobileconfig("d", &payload());
    let main = &as_array(get(&config, "PayloadContent").unwrap()).unwrap()[0];
    assert_eq!(as_string(get(main, "PayloadIdentifier").unwrap()).unwrap(), "com.slimbrave.profile.d.payload");
    assert_eq!(
        as_string(get(main, "PayloadUUID").unwrap()).unwrap(),
        stable_uuid("com.slimbrave.profile.d.payload")
    );
    assert_ne!(
        as_string(get(main, "PayloadUUID").unwrap()),
        as_string(get(&config, "PayloadUUID").unwrap())
    );
}

#[test]
fn plist_values_of_policy_values() {
    assert!(matches!(to_plist_value(&WriteValue::Int(-3)), PlistValue::Integer(-3)));
    match to_plist_value(&WriteValue::Array(vec!["a".to_string()])) {
        PlistValue::Array(items) => {
            assert_eq!(items.len(), 1);
            assert_eq!(as_string(&items[0]), Some("a"));
        }
        _ => panic!("arrays stay arrays"),
    }
    assert_eq!(profile_identifier("x.y"), "com.slimbrave.profile.x.y");
}
