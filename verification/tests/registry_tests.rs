use rota::errors::RegistryError;
use rota::headers::Headers;
use rota::registry::{
    assign_alias, assign_firmware, bundle_devices, decode_registry, encode_registry,
    purge_device_by_index, register_device, DeviceRecord, ManagementResult, Registry,
};

fn record(id: &str, alias: &str, firmware: &str) -> DeviceRecord {
    DeviceRecord {
        device_id: id.to_string(),
        device_alias: alias.to_string(),
        target_firmware: firmware.to_string(),
    }
}

fn headers(pairs: &[(&str, &str)]) -> Headers {
    Headers {
        entries: pairs.iter().map(|(k, v)| (k.to_string(), v.to_string())).collect(),
    }
}

fn fields(reg: &Registry) -> Vec<(String, String, String)> {
    reg.records
        .iter()
        .map(|r| (r.device_id.clone(), r.device_alias.clone(), r.target_firmware.clone()))
        .collect()
}

#[test]
fn register_inserts_unassigned_record() {
    let mut reg = Registry::new();
    assert!(reg.register("AA:BB:CC"));
    assert_eq!(
        fields(&reg),
        vec![("AA:BB:CC".to_string(), "UNASSIGNED".to_string(), "UNASSIGNED".to_string())]
    );
}

#[test]
fn register_twice_leaves_one_record() {
    let mut reg = Registry::new();
    assert!(reg.register("AA:BB:CC"));
    assert!(!reg.register("AA:BB:CC"));
    assert_eq!(reg.records.len(), 1);
    assert_eq!(reg.records[0].device_id, "AA:BB:CC");
}

#[test]
fn assign_firmware_replaces_firmware_and_preserves_alias() {
    let mut reg = Registry { records: vec![record("AA:BB:CC", "lamp", "old_fw")] };
    reg.assign_firmware("AA:BB:CC", "new_fw").unwrap();
    assert_eq!(
        fields(&reg),
        vec![("AA:BB:CC".to_string(), "lamp".to_string(), "new_fw".to_string())]
    );
}

#[test]
fn assign_alias_replaces_alias_and_preserves_firmware() {
    let mut reg = Registry { records: vec![record("AA:BB:CC", "lamp", "fw1")] };
    reg.assign_alias("AA:BB:CC", "porch").unwrap();
    assert_eq!(
        fields(&reg),
        vec![("AA:BB:CC".to_string(), "porch".to_string(), "fw1".to_string())]
    );
}

#[test]
fn assignment_to_unknown_device_is_not_found() {
    let mut reg = Registry { records: vec![record("AA:BB:CC", "lamp", "fw1")] };
    assert_eq!(reg.assign_firmware("11:22:33", "fw2"), Err(RegistryError::DeviceNotFound));
    assert_eq!(reg.assign_alias("11:22:33", "shed"), Err(RegistryError::DeviceNotFound));
    assert_eq!(reg.records.len(), 1);
    assert_eq!(reg.records[0].device_alias, "lamp");
    assert_eq!(reg.records[0].target_firmware, "fw1");
}

#[test]
fn interleaved_assignments_to_distinct_devices_lose_nothing() {
    let mut reg = Registry {
        records: vec![record("id1", "alias1", "fw_old"), record("id2", "alias2", "fw2")],
    };
    reg.assign_firmware("id1", "fw_new").unwrap();
    reg.assign_alias("id2", "alias_new").unwrap();
    let mut got = fields(&reg);
    got.sort();
    assert_eq!(
        got,
        vec![
            ("id1".to_string(), "alias1".to_string(), "fw_new".to_string()),
            ("id2".to_string(), "alias_new".to_string(), "fw2".to_string()),
        ]
    );
}

#[test]
fn purge_removes_by_index_and_shifts() {
    let mut reg = Registry {
        records: vec![record("a", "x", "1"), record("b", "y", "2"), record("c", "z", "3")],
    };
    purge_device_by_index(&mut reg, 1);
    assert_eq!(reg.records.len(), 2);
    assert_eq!(reg.records[0].device_id, "a");
    assert_eq!(reg.records[1].device_id, "c");
}

#[test]
fn bundle_joins_fields_with_pipes() {
    let bundled = bundle_devices(vec![
        record("a", "x", "1"),
        record("b", "y", "2"),
        record("c", "z", "3"),
    ]);
    assert_eq!(bundled.device_id, "a|b|c");
    assert_eq!(bundled.device_alias, "x|y|z");
    assert_eq!(bundled.target_firmware, "1|2|3");
}

#[test]
fn bundle_of_one_record_has_no_pipe() {
    let bundled = bundle_devices(vec![record("a", "x", "1")]);
    assert_eq!(bundled.device_id, "a");
    assert_eq!(bundled.device_alias, "x");
    assert_eq!(bundled.target_firmware, "1");
}

#[test]
fn encode_writes_three_aligned_field_lines() {
    let reg = Registry { records: vec![record("a", "x", "1"), record("b", "y", "2")] };
    let text = encode_registry(reg);
    assert_eq!(
        text,
        "device_id = 'a|b'\ndevice_alias = 'x|y'\ntarget_firmware = '1|2'"
    );
}

#[test]
fn decode_rebuilds_records_index_aligned() {
    let text = "device_id = 'a|b'\ndevice_alias = 'x|y'\ntarget_firmware = '1|2'";
    let reg = decode_registry(text).unwrap();
    assert_eq!(
        fields(&reg),
        vec![
            ("a".to_string(), "x".to_string(), "1".to_string()),
            ("b".to_string(), "y".to_string(), "2".to_string()),
        ]
    );
}

#[test]
fn registry_text_round_trips() {
    let reg = Registry {
        records: vec![record("AA:BB:CC", "UNASSIGNED", "UNASSIGNED"), record("DD:EE:FF", "porch", "fw2")],
    };
    let before = fields(&reg);
    let text = encode_registry(reg);
    let back = decode_registry(&text).unwrap();
    assert_eq!(fields(&back), before);
}

#[test]
fn unreadable_store_is_an_error_not_a_crash() {
    assert!(matches!(decode_registry(""), Err(RegistryError::StoreUnreadable)));
    assert!(matches!(decode_registry("device_id = 'a'"), Err(RegistryError::StoreUnreadable)));
    assert!(matches!(
        decode_registry("device_id = 'a'\ndevice_alias = 'x'\nwrong = '1'"),
        Err(RegistryError::StoreUnreadable)
    ));
    // Misaligned field lists do not decode.
    assert!(matches!(
        decode_registry("device_id = 'a|b'\ndevice_alias = 'x'\ntarget_firmware = '1|2'"),
        Err(RegistryError::StoreUnreadable)
    ));
}

#[test]
fn register_flow_needs_a_valid_key() {
    let mut reg = Registry::new();
    let h = headers(&[
        ("x-esp32-version", "Jan  5 2021, 12:00:00?badkey"),
        ("esp-device-id", "AA:BB:CC"),
    ]);
    assert_eq!(register_device(&h, "goodkey\n", &mut reg), ManagementResult::Unauthorized);
    assert_eq!(reg.records.len(), 0);
}

#[test]
fn register_flow_without_id_header_changes_nothing() {
    let mut reg = Registry::new();
    let h = headers(&[("x-esp32-version", "Jan  5 2021, 12:00:00?goodkey")]);
    assert_eq!(register_device(&h, "goodkey\n", &mut reg), ManagementResult::NoChange);
    assert_eq!(reg.records.len(), 0);
}

#[test]
fn assign_firmware_flow_applies_or_reports_not_found() {
    let h = headers(&[
        ("x-esp32-version", "Jan  5 2021, 12:00:00?goodkey"),
        ("esp-device-id", "AA:BB:CC"),
        ("esp-target-firmware", "fw9"),
    ]);
    let mut reg = Registry { records: vec![record("AA:BB:CC", "lamp", "fw1")] };
    assert_eq!(assign_firmware(&h, "goodkey\n", &mut reg), ManagementResult::Applied);
    assert_eq!(
        fields(&reg),
        vec![("AA:BB:CC".to_string(), "lamp".to_string(), "fw9".to_string())]
    );
    let mut empty = Registry::new();
    assert_eq!(assign_firmware(&h, "goodkey\n", &mut empty), ManagementResult::DeviceNotFound);
}

#[test]
fn assign_alias_flow_applies_or_reports_not_found() {
    let h = headers(&[
        ("x-esp32-version", "Jan  5 2021, 12:00:00?goodkey"),
        ("esp-device-id", "AA:BB:CC"),
        ("esp-alias", "porch"),
    ]);
    let mut reg = Registry { records: vec![record("AA:BB:CC", "lamp", "fw1")] };
    assert_eq!(assign_alias(&h, "goodkey\n", &mut reg), ManagementResult::Applied);
    assert_eq!(
        fields(&reg),
        vec![("AA:BB:CC".to_string(), "porch".to_string(), "fw1".to_string())]
    );
    let mut empty = Registry::new();
    assert_eq!(assign_alias(&h, "goodkey\n", &mut empty), ManagementResult::DeviceNotFound);
}
