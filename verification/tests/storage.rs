use velo::pkv::{LocalStorageStore, Location, PlatformDefault};
use velo::startup::{document_param, parse_config, try_document_to_fetch};
use velo::workspace::AppState;
use std::collections::HashMap;

fn store(qualifier: Option<&str>) -> LocalStorageStore {
    LocalStorageStore::new(Location::PlatformDefault(PlatformDefault {
        qualifier: qualifier.map(|q| q.to_string()),
        organization: "velo".to_string(),
        application: "app".to_string(),
    }))
}

#[test]
fn keys_carry_the_application_prefix() {
    assert_eq!(store(Some("com")).format_key("docs"), "com.velo.appdocs");
    assert_eq!(store(None).format_key("docs"), "velo.appdocs");
}

#[test]
fn clearing_removes_only_own_keys() {
    let s = store(None);
    let keys = vec![
        "velo.appdocs".to_string(),
        "other.appdocs".to_string(),
        "velo.apptags".to_string(),
        "velo".to_string(),
    ];
    assert_eq!(s.keys_to_clear(&keys), vec!["velo.appdocs".to_string(), "velo.apptags".to_string()]);
    assert!(s.owns_key(&s.format_key("names")));
    assert!(!s.owns_key("velo.ap"));
}

#[test]
fn config_token_is_read_from_toml() {
    let c = parse_config("github_access_token = \"abc\"\n").unwrap();
    assert_eq!(c.github_access_token.as_deref(), Some("abc"));
    let c = parse_config("other = 1\n").unwrap();
    assert_eq!(c.github_access_token, None);
    let c = parse_config("github_access_token = 5\n").unwrap();
    assert_eq!(c.github_access_token, None);
    assert!(parse_config("this is = = not toml").is_none());
}

#[test]
fn config_token_goes_into_the_state() {
    let mut state = AppState { current_document: None, docs: HashMap::new(), github_token: None };
    state.apply_config(parse_config("github_access_token = \"t\"\n"));
    assert_eq!(state.github_token.as_deref(), Some("t"));
    state.apply_config(None);
    assert_eq!(state.github_token.as_deref(), Some("t"));
}

#[test]
fn last_document_parameter_wins() {
    let pairs = vec![
        ("document".to_string(), "a".to_string()),
        ("x".to_string(), "y".to_string()),
        ("document".to_string(), "b".to_string()),
    ];
    assert_eq!(document_param(&pairs).as_deref(), Some("b"));
    assert_eq!(document_param(&vec![]), None);
}

#[test]
fn page_address_names_one_document() {
    let href = "https://velo.example/?document=https%3A%2F%2Fexample.com%2Fdoc.json";
    assert_eq!(
        try_document_to_fetch(href),
        Some(Some("https://example.com/doc.json".to_string()))
    );
    assert_eq!(try_document_to_fetch("https://velo.example/?x=1"), Some(None));
    assert_eq!(try_document_to_fetch("https://velo.example/?document=nothing"), Some(None));
    assert_eq!(try_document_to_fetch("not a url"), None);
}

#[test]
fn stored_strings_are_json_encoded() {
    let s = store(None);
    let (key, json) = s.string_entry("token", "a\"b").unwrap();
    assert_eq!(key, "velo.apptoken");
    assert_eq!(json, "\"a\\\"b\"");
}

#[test]
fn stored_strings_escape_control_characters_only() {
    let s = store(None);
    let (_, json) = s.string_entry("k", "x\u{1}\u{1f}\t\n\r\u{8}\u{c}\\é/\u{7f}").unwrap();
    assert_eq!(json, "\"x\\u0001\\u001f\\t\\n\\r\\b\\f\\\\é/\u{7f}\"");
}
