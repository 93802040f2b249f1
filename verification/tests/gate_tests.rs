use rota::auth::{authorize, presented_key, validate_api_key};
use rota::errors::{AuthError, ResolutionError};
use rota::headers::{
    check_device_is_allowed, client_using_https, extract_firmware_string, extract_mac_addr_string,
    DeviceClass, Headers,
};
use rota::resolve::resolve;
use rota::text::{remove_whitespace, to_string_vec};

fn headers(pairs: &[(&str, &str)]) -> Headers {
    Headers {
        entries: pairs.iter().map(|(k, v)| (k.to_string(), v.to_string())).collect(),
    }
}

#[test]
fn classifies_device_from_mac_header() {
    let h8266 = headers(&[("x-esp8266-sta-mac", "AA:BB:CC")]);
    let h32 = headers(&[("x-esp32-sta-mac", "AA:BB:CC")]);
    let none = headers(&[("x-real-ip", "10.0.0.1")]);
    assert_eq!(h8266.device_class(), Some(DeviceClass::Esp8266));
    assert_eq!(h32.device_class(), Some(DeviceClass::Esp32));
    assert_eq!(none.device_class(), None);
    assert!(check_device_is_allowed(&h32));
    assert!(!check_device_is_allowed(&none));
}

#[test]
fn extracts_mac_and_version_from_either_class() {
    let h = headers(&[("x-esp32-sta-mac", "AA:BB:CC"), ("x-esp32-version", "v?k")]);
    assert_eq!(extract_mac_addr_string(&h).unwrap(), "AA:BB:CC");
    assert_eq!(extract_firmware_string(&h).unwrap(), "v?k");
    let none = headers(&[]);
    assert_eq!(extract_mac_addr_string(&none), Err(AuthError::DeviceTypeUnrecognized));
    assert_eq!(extract_firmware_string(&none), Err(AuthError::DeviceTypeUnrecognized));
}

#[test]
fn header_lookup_takes_first_match() {
    let h = headers(&[("x-esp32-sta-mac", "first"), ("x-esp32-sta-mac", "second")]);
    assert_eq!(extract_mac_addr_string(&h).unwrap(), "first");
}

#[test]
fn detects_declared_transport() {
    assert!(client_using_https(&headers(&[("x-forwarded-proto", "https")])));
    assert!(!client_using_https(&headers(&[("x-forwarded-proto", "http")])));
    assert!(!client_using_https(&headers(&[])));
}

#[test]
fn key_is_second_question_mark_field() {
    assert_eq!(presented_key("Jan  5 2021, 12:00:00?goodkey").unwrap(), "goodkey");
    assert_eq!(presented_key("a?b?c").unwrap(), "b");
    assert_eq!(presented_key("no separator"), None);
}

#[test]
fn validates_key_against_key_file_lines() {
    let h = headers(&[("x-esp32-version", "Jan  5 2021, 12:00:00?goodkey")]);
    assert!(validate_api_key(&h, "otherkey\ngoodkey\n"));
    assert!(validate_api_key(&h, "goodkey"));
    assert!(!validate_api_key(&h, "otherkey\n"));
    assert!(!validate_api_key(&h, ""));
    // A key must match a whole line, not a prefix of one.
    assert!(!validate_api_key(&h, "goodkey2\n"));
}

#[test]
fn authorize_rejects_unrecognized_class_before_key() {
    let h = headers(&[("x-esp32-version", "Jan  5 2021, 12:00:00?goodkey")]);
    assert_eq!(authorize(&h, "goodkey\n"), Err(AuthError::DeviceTypeUnrecognized));
}

#[test]
fn authorize_rejects_bad_or_missing_key() {
    let bad = headers(&[
        ("x-esp32-sta-mac", "AA:BB:CC"),
        ("x-esp32-version", "Jan  5 2021, 12:00:00?badkey"),
    ]);
    assert_eq!(authorize(&bad, "goodkey\n"), Err(AuthError::InvalidApiKey));
    let none = headers(&[
        ("x-esp32-sta-mac", "AA:BB:CC"),
        ("x-esp32-version", "Jan  5 2021, 12:00:00"),
    ]);
    assert_eq!(authorize(&none, "goodkey\n"), Err(AuthError::InvalidApiKey));
}

#[test]
fn authorize_returns_identity_and_version() {
    let h = headers(&[
        ("x-esp32-sta-mac", "AA:BB:CC"),
        ("x-esp32-version", "Jan  5 2021, 12:00:00?goodkey"),
    ]);
    let (mac, version) = authorize(&h, "goodkey\n").unwrap();
    assert_eq!(mac, "AA:BB:CC");
    assert_eq!(version, "Jan  5 2021, 12:00:00?goodkey");
}

#[test]
fn resolves_first_exact_match() {
    let table = "AA:BB:CC, fw1\nDD:EE:FF, fw2\nAA:BB:CC, fw3\n";
    assert_eq!(resolve(table, "AA:BB:CC").unwrap(), "fw1");
    assert_eq!(resolve(table, "DD:EE:FF").unwrap(), "fw2");
}

#[test]
fn resolve_strips_whitespace_from_path() {
    let table = "AA:BB:CC,  my fw \n";
    assert_eq!(resolve(table, "AA:BB:CC").unwrap(), "myfw");
}

#[test]
fn unknown_identity_yields_no_target_mapping() {
    let table = "AA:BB:CC, fw1\n";
    assert_eq!(resolve(table, "11:22:33"), Err(ResolutionError::NoTargetMapping));
    assert_eq!(resolve("", "AA:BB:CC"), Err(ResolutionError::NoTargetMapping));
}

#[test]
fn resolve_is_repeatable() {
    let table = "AA:BB:CC, fw1\nDD:EE:FF, fw2\n";
    let first = resolve(table, "AA:BB:CC");
    let second = resolve(table, "AA:BB:CC");
    assert_eq!(first, second);
}

#[test]
fn resolve_needs_exact_identity_and_a_comma() {
    let table = "AA:BB, fw1\nAA:BB:CC\nAA:BB:CC, fw2\n";
    // A prefix does not match, and a line without a comma is no entry.
    assert_eq!(resolve(table, "AA:BB:CC").unwrap(), "fw2");
}

#[test]
fn remove_whitespace_drops_every_whitespace_character() {
    assert_eq!(remove_whitespace(" a b\tc \r\n"), "abc");
    assert_eq!(remove_whitespace(""), "");
    assert_eq!(remove_whitespace("nospace"), "nospace");
}

#[test]
fn to_string_vec_keeps_order_and_content() {
    let v = to_string_vec(vec!["a", "", "bc"]);
    assert_eq!(v, vec!["a".to_string(), "".to_string(), "bc".to_string()]);
}
