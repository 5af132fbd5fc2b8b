use ble_calculator_native::ble::{
    build_join_local_name, build_room_local_name, BlePeripheral, PeripheralConfig,
    StubPeripheral, CALCULATOR_RX_CHARACTERISTIC_UUID, CALCULATOR_SERVICE_UUID,
    CALCULATOR_TX_CHARACTERISTIC_UUID, MAX_ADVERTISEMENT_NAME_BYTES, MAX_ROOM_ID_BYTES,
};

#[test]
fn builds_join_local_name_matching_scan_format() {
    let name = build_join_local_name("r-abc123");
    assert_eq!(name, "EVC:J:r-abc123");
}

#[test]
fn sanitizes_colons_that_would_break_framing() {
    let name = build_join_local_name("room:evil");
    // Exactly three fields must remain so the host parser stays correct.
    assert_eq!(name.split(':').count(), 3);
    assert_eq!(name, "EVC:J:room evil");
}

#[test]
fn normalizes_room_ids_to_lowercase() {
    assert_eq!(build_join_local_name(" R-ABC123 "), "EVC:J:r-abc123");
}

#[test]
fn builds_room_local_name_with_room_kind() {
    let name = build_room_local_name("r-abc123");
    assert_eq!(name, "EVC:R:r-abc123");
    assert_eq!(name.split(':').count(), 3);
}

#[test]
fn advertisement_names_fit_scan_response_budget() {
    let longest_code = "x".repeat(MAX_ROOM_ID_BYTES);
    for name in [
        build_join_local_name("r-abc123"),
        build_room_local_name("r-abc123"),
        build_join_local_name(&longest_code),
    ] {
        assert!(
            name.len() <= MAX_ADVERTISEMENT_NAME_BYTES,
            "advertisement name {name:?} ({} bytes) exceeds the {MAX_ADVERTISEMENT_NAME_BYTES}-byte budget",
            name.len(),
        );
    }
}

#[test]
fn join_config_uses_calculator_uuids() {
    let config = PeripheralConfig::join("r-1");
    assert_eq!(config.service_uuid, CALCULATOR_SERVICE_UUID);
    assert_eq!(config.rx_characteristic_uuid, CALCULATOR_RX_CHARACTERISTIC_UUID);
    assert_eq!(config.tx_characteristic_uuid, CALCULATOR_TX_CHARACTERISTIC_UUID);
    assert_eq!(config.local_name, "EVC:J:r-1");
}

#[test]
fn room_config_uses_room_kind_and_calculator_uuids() {
    let config = PeripheralConfig::room(" R-ABC123 ");
    assert_eq!(config.service_uuid, CALCULATOR_SERVICE_UUID);
    assert_eq!(config.local_name, "EVC:R:r-abc123");
}

#[test]
fn a_room_code_at_the_limit_fills_the_name_budget_exactly() {
    let name = build_join_local_name(&"a".repeat(MAX_ROOM_ID_BYTES));
    assert_eq!(name.len(), MAX_ADVERTISEMENT_NAME_BYTES);
}

#[test]
fn stub_peripheral_fails_loud() {
    let mut stub = StubPeripheral::new();
    assert_eq!(stub.platform(), "stub-unsupported");
    assert!(!stub.is_supported());
    assert!(!stub.is_advertising());
    assert!(!stub.has_subscriber());
    assert!(stub.take_inbound().is_empty());
    assert_eq!(stub.stop(), Ok(()));
    let error = stub
        .start_advertising(&PeripheralConfig::join("r-1"))
        .expect_err("the stub never advertises");
    assert_eq!(
        error,
        "Guest BLE peripheral advertising is not implemented on this operating system."
    );
    let error = stub.notify(&[vec![1u8]]).expect_err("the stub never notifies");
    assert_eq!(
        error,
        "Guest BLE notify (guest -> host) is not implemented on this operating system."
    );
    assert_eq!(stub.take_last_error(), None);
    assert_eq!(stub.max_notify_frame_len(), None);
}
