//! End-to-end negotiation scenarios: the header set, the key file, the
//! mapping table and the build marker are given as plain values, exactly as
//! the HTTP layer hands them to the engine, and each scenario checks the
//! response status the outcome maps to.

use rota::decision::{
    finish_update, plan_update, status_for_action, status_for_error, OtaError, UpdateAction,
};
use rota::decision::status_for_registry_error;
use rota::errors::{AuthError, RegistryError};
use rota::headers::Headers;
use rota::registry::{register_device, ManagementResult, Registry};

fn headers(pairs: &[(&str, &str)]) -> Headers {
    Headers {
        entries: pairs.iter().map(|(k, v)| (k.to_string(), v.to_string())).collect(),
    }
}

const KEYS: &str = "goodkey\n";
const TARGETS: &str = "AA:BB:CC, fw1\n";

fn esp32_headers(version: &str) -> Headers {
    headers(&[("x-esp32-sta-mac", "AA:BB:CC"), ("x-esp32-version", version)])
}

#[test]
fn serves_update_when_target_is_newer() {
    let h = esp32_headers("Jan  5 2021, 12:00:00?goodkey");
    let plan = plan_update(&h, KEYS, TARGETS).unwrap();
    assert_eq!(plan.device_id, "AA:BB:CC");
    assert_eq!(plan.target_path, "fw1");
    // fw1.ct encodes a later date than the claimed version.
    let marker = "\"Jan  6 2021, time 12:00:00";
    let action = finish_update(&plan.claimed, marker).unwrap();
    assert_eq!(action, UpdateAction::ServeUpdate);
    assert_eq!(status_for_action(&action), 200);
}

#[test]
fn not_modified_when_claimed_is_later() {
    let h = esp32_headers("Jan  7 2021, 12:00:00?goodkey");
    let plan = plan_update(&h, KEYS, TARGETS).unwrap();
    let marker = "\"Jan  6 2021, time 12:00:00";
    let action = finish_update(&plan.claimed, marker).unwrap();
    assert_eq!(action, UpdateAction::UpToDate);
    assert_eq!(status_for_action(&action), 304);
}

#[test]
fn not_modified_when_claimed_equals_target() {
    let h = esp32_headers("Jan  6 2021, 12:00:00?goodkey");
    let plan = plan_update(&h, KEYS, TARGETS).unwrap();
    let marker = "\"Jan  6 2021, time 12:00:00";
    let action = finish_update(&plan.claimed, marker).unwrap();
    assert_eq!(action, UpdateAction::UpToDate);
    assert_eq!(status_for_action(&action), 304);
}

#[test]
fn unknown_key_is_unauthorized() {
    let h = esp32_headers("Jan  5 2021, 12:00:00?wrongkey");
    let e = plan_update(&h, KEYS, TARGETS).unwrap_err();
    assert_eq!(e, OtaError::Auth(AuthError::InvalidApiKey));
    assert_eq!(status_for_error(&e), 401);
}

#[test]
fn missing_class_header_is_forbidden() {
    // Neither class MAC header is present, so the request is rejected
    // first, whatever the other headers hold.
    let h = headers(&[("x-esp32-version", "not a timestamp?goodkey")]);
    let e = plan_update(&h, KEYS, TARGETS).unwrap_err();
    assert_eq!(e, OtaError::Auth(AuthError::DeviceTypeUnrecognized));
    assert_eq!(status_for_error(&e), 403);
}

#[test]
fn unmapped_device_is_a_server_error() {
    let h = headers(&[("x-esp32-sta-mac", "11:22:33"), ("x-esp32-version", "Jan  5 2021, 12:00:00?goodkey")]);
    let e = plan_update(&h, KEYS, TARGETS).unwrap_err();
    assert_eq!(status_for_error(&e), 500);
}

#[test]
fn malformed_claimed_version_is_a_server_error() {
    let h = esp32_headers("garbage?goodkey");
    let e = plan_update(&h, KEYS, TARGETS).unwrap_err();
    assert_eq!(status_for_error(&e), 500);
}

#[test]
fn malformed_marker_is_a_server_error() {
    let h = esp32_headers("Jan  5 2021, 12:00:00?goodkey");
    let plan = plan_update(&h, KEYS, TARGETS).unwrap();
    let e = finish_update(&plan.claimed, "not a marker").unwrap_err();
    assert_eq!(status_for_error(&e), 500);
}

#[test]
fn register_gains_record_and_repeating_changes_nothing() {
    let h = headers(&[
        ("x-esp32-version", "Jan  5 2021, 12:00:00?goodkey"),
        ("esp-device-id", "AA:BB:CC"),
    ]);
    let mut reg = Registry::new();
    assert_eq!(register_device(&h, KEYS, &mut reg), ManagementResult::Applied);
    assert_eq!(reg.records.len(), 1);
    assert_eq!(reg.records[0].device_id, "AA:BB:CC");
    assert_eq!(reg.records[0].device_alias, "UNASSIGNED");
    assert_eq!(reg.records[0].target_firmware, "UNASSIGNED");
    assert_eq!(register_device(&h, KEYS, &mut reg), ManagementResult::NoChange);
    assert_eq!(reg.records.len(), 1);
    assert_eq!(reg.records[0].device_alias, "UNASSIGNED");
}

#[test]
fn registry_failures_map_to_server_errors() {
    assert_eq!(status_for_registry_error(&RegistryError::DeviceNotFound), 500);
    assert_eq!(status_for_registry_error(&RegistryError::StoreUnreadable), 500);
    assert_eq!(status_for_registry_error(&RegistryError::StoreUnwritable), 500);
}
