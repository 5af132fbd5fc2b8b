use ble_calculator_native::advertisement::{PeerSummary, RoomSummary};
use ble_calculator_native::ble::{build_join_local_name, build_room_local_name, BlePeripheral, StubPeripheral};
use ble_calculator_native::central::{adapter_unavailable_message, select_write_kind, WriteKind};
use ble_calculator_native::clock::now_iso;
use ble_calculator_native::credential::ValidationSummary;
use ble_calculator_native::event::CalculationEntry;
use ble_calculator_native::ids::{new_calculation_entry, new_room_code};
use ble_calculator_native::scan::ScannedDevice;
use ble_calculator_native::session::{
    accept_host_connection, accept_host_with, adopt_identity, apply_persisted_history, begin_connect_guest,
    connect_ble_peer_address, create_room, enter_room,
    finish_connect_guest, host_beacon_error, host_frame_budget, join_room, mark_host_connected,
    note_delivery, note_guest_advertising, note_rejected_event, note_room_beacon,
    note_transport_error, note_verified_peer,
    plan_guest_delivery, plan_host_delivery, received_for_storage, record_calculation, refresh_connection_state, reset_ble_session,
    scan_rooms, settle_incoming, start_scanning, submission_expression, trim_or_default,
    NativeCapabilities, RoomState, DEFAULT_HISTORY_LIMIT,
};
use ble_calculator_native::signing::{identity_from_signing_key, sign_calculation_event};

const NOW: &str = "2026-01-01T00:00:00Z";

fn fresh_state() -> RoomState {
    let identity = identity_from_signing_key([4u8; 32], false);
    RoomState::new(
        &identity,
        Vec::new(),
        Some("/tmp/evolve-calc.sqlite3".to_string()),
        0,
        NativeCapabilities::current(true),
        Vec::new(),
    )
}

fn peer(id: &str, role: &str, trust: &str, connected: bool) -> PeerSummary {
    PeerSummary {
        id: id.to_string(),
        label: id.to_string(),
        session_role: role.to_string(),
        ble_role: "peripheral".to_string(),
        trust_status: trust.to_string(),
        connected,
        last_seen_iso: "old".to_string(),
        rssi: None,
    }
}

#[test]
fn a_new_session_signs_as_its_device() {
    let state = fresh_state();
    assert!(state.local_device_id.starts_with("native-"));
    assert_eq!(state.local_device_id, format!("native-{}", state.native_status.public_key_fingerprint));
    assert!(state.session_role.is_none() && state.room_id.is_none());
    assert!(state.native_capabilities.ble_peripheral_advertising);
    assert!(!state.native_capabilities.jwe_decryption);
}

#[test]
fn creating_a_room_hosts_it_and_reports_a_failed_beacon() {
    let mut state = fresh_state();
    let mut stub = StubPeripheral::new();
    let config = create_room(&mut state, "  ");
    assert_eq!(state.room_name.as_deref(), Some("Calculator Room"));
    let room_id = state.room_id.clone().expect("room id");
    assert_eq!(config.local_name, build_room_local_name(&room_id));
    assert!(config.local_name.starts_with("EVC:R:r-"));
    assert!(state.native_status.last_ble_error.is_none());
    note_room_beacon(&mut state, stub.start_advertising(&config));
    assert_eq!(room_id.len(), 8);
    assert!(room_id.starts_with("r-"));
    assert!(room_id[2..].chars().all(|c| c.is_ascii_hexdigit() && !c.is_ascii_uppercase()));
    assert_eq!(state.session_role.as_deref(), Some("host"));
    assert_eq!(state.ble_role.as_deref(), Some("central"));
    let expected = "Room discovery beacon could not start: Guest BLE peripheral advertising is not implemented on this operating system.";
    assert_eq!(state.native_status.last_ble_error.as_deref(), Some(expected));
    assert_eq!(state.native_warnings, vec![expected.to_string()]);
}

#[test]
fn room_codes_are_short_lowercase_hex() {
    for _ in 0..20 {
        let code = new_room_code();
        assert_eq!(code.len(), 8);
        assert!(code.starts_with("r-"));
        assert!(code[2..].chars().all(|c| matches!(c, '0'..='9' | 'a'..='f')));
    }
}

#[test]
fn joining_normalizes_the_typed_code_and_uses_the_discovered_room() {
    let mut state = fresh_state();
    state.rooms = vec![RoomSummary {
        id: "r-abc123".to_string(),
        name: "Desk".to_string(),
        host_device_id: "ble-HOST".to_string(),
        trust_status: "pending".to_string(),
        joinable: true,
        last_seen_iso: "t".to_string(),
        rssi: None,
    }];
    let joined = enter_room(&mut state, "  R-ABC123 ", NOW);
    assert_eq!(joined.as_deref(), Some("r-abc123"));
    assert_eq!(state.room_name.as_deref(), Some("Desk"));
    assert_eq!(state.session_role.as_deref(), Some("guest"));
    assert_eq!(state.ble_role.as_deref(), Some("peripheral"));
    assert!(state.advertising && !state.scanning);
    assert_eq!(state.peers.len(), 1);
    assert_eq!(state.peers[0].id, "ble-HOST");
    assert_eq!(state.peers[0].label, "Desk");
    assert_eq!(state.peers[0].trust_status, "pending");
}

#[test]
fn joining_refuses_empty_and_oversized_codes() {
    let mut state = fresh_state();
    assert!(enter_room(&mut state, "   ", NOW).is_none());
    assert_eq!(state.native_warnings, vec!["Cannot join an empty room id.".to_string()]);
    let code = "x".repeat(21);
    assert!(enter_room(&mut state, &code, NOW).is_none());
    let expected = format!(
        "Room code {:?} is too long to advertise over BLE (max 20 characters).",
        code
    );
    assert_eq!(state.native_status.last_ble_error.as_deref(), Some(expected.as_str()));
    assert!(state.session_role.is_none());
}

#[test]
fn joining_through_a_backend_that_cannot_advertise_reports_it() {
    let mut state = fresh_state();
    let mut stub = StubPeripheral::new();
    let config = join_room(&mut state, "  R-1 ", NOW).expect("join config");
    assert_eq!(config.local_name, "EVC:J:r-1");
    assert_eq!(config.local_name, build_join_local_name("r-1"));
    assert!(state.advertising);
    note_guest_advertising(&mut state, stub.start_advertising(&config));
    let mut refused = fresh_state();
    assert!(join_room(&mut refused, "   ", NOW).is_none());
    assert!(join_room(&mut refused, "r-0123456789abcdefghijk", NOW).is_none());
    assert!(refused.session_role.is_none());
    assert_eq!(state.room_name.as_deref(), Some("Join r-1"));
    assert_eq!(state.peers[0].id, "host-native-pending");
    assert_eq!(state.peers[0].label, "Host pending");
    assert!(!state.advertising);
    assert_eq!(
        state.native_warnings,
        vec!["Guest BLE advertising could not start: Guest BLE peripheral advertising is not implemented on this operating system.".to_string()]
    );
}

#[test]
fn accepting_a_host_stops_advertising_and_connects_it() {
    let mut state = fresh_state();
    state.advertising = true;
    let stub = StubPeripheral::new();
    accept_host_connection(&mut state, &stub, NOW);
    assert!(!state.advertising);
    assert_eq!(state.peers.len(), 1);
    assert_eq!(state.peers[0].session_role, "host");
    assert!(state.peers[0].connected);
    assert_eq!(
        state.native_warnings,
        vec!["Host acceptance needs this platform's BLE peripheral/GATT server backend, which is not implemented yet.".to_string()]
    );

    let mut state = fresh_state();
    state.advertising = true;
    accept_host_with(&mut state, true, NOW);
    assert!(!state.advertising);
    assert_eq!(state.peers.len(), 1);
    assert_eq!(state.peers[0].label, "Host connected");
    assert!(state.peers[0].connected);
    assert_eq!(state.peers[0].trust_status, "pending");
    assert!(state.native_warnings.is_empty());
}

fn join_device(address: &str, code: &str) -> ScannedDevice {
    ScannedDevice {
        address: address.to_string(),
        local_name: Some(format!("EVC:J:{code}")),
        service_payload: None,
        rssi: Some(-60),
    }
}

#[test]
fn scanning_for_guests_merges_join_requests_for_this_room() {
    let mut state = fresh_state();
    state.room_id = Some("r-abc123".to_string());
    start_scanning(
        &mut state,
        Ok(vec![join_device("AA", "r-abc123"), join_device("BB", "r-other")]),
        NOW,
    );
    assert!(state.scanning && !state.advertising);
    assert_eq!(state.session_role.as_deref(), Some("host"));
    assert_eq!(state.peers.len(), 1);
    assert_eq!(state.peers[0].id, "ble-AA");
    assert!(state.native_warnings.is_empty());

    start_scanning(&mut state, Ok(vec![join_device("CC", "r-zzz")]), NOW);
    assert_eq!(state.peers.len(), 1);
    assert_eq!(
        state.native_warnings,
        vec!["BLE scan saw device(s) advertising the calculator service, but none matched a joinable guest for this room. Seen names: EVC:J:r-zzz".to_string()]
    );

    start_scanning(&mut state, Err("radio off".to_string()), NOW);
    assert_eq!(state.native_status.last_ble_error.as_deref(), Some("radio off"));
    assert!(state
        .native_warnings
        .contains(&"BLE central scan attempted but did not complete: radio off".to_string()));
}

#[test]
fn scanning_for_rooms_merges_beacons() {
    let mut state = fresh_state();
    let beacon = ScannedDevice {
        address: "HOST".to_string(),
        local_name: Some("Mac [EVC:R:r-abc123]".to_string()),
        service_payload: None,
        rssi: None,
    };
    scan_rooms(&mut state, Ok(vec![beacon]), NOW);
    assert_eq!(state.session_role.as_deref(), Some("guest"));
    assert_eq!(state.ble_role.as_deref(), Some("central"));
    assert_eq!(state.rooms.len(), 1);
    assert_eq!(state.rooms[0].id, "r-abc123");
    assert_eq!(state.rooms[0].name, "Room r-abc123");

    scan_rooms(&mut state, Ok(vec![join_device("G", "r-1")]), NOW);
    assert_eq!(state.native_warnings.len(), 1);
    assert!(state.native_warnings[0].ends_with("Seen names: EVC:J:r-1"));
}

#[test]
fn connecting_needs_a_host_and_a_listed_peer() {
    let mut state = fresh_state();
    assert!(!begin_connect_guest(&mut state, "ble-AA"));
    assert_eq!(
        state.native_warnings,
        vec!["Only a host/central session can approve guest join requests.".to_string()]
    );
    state.session_role = Some("host".to_string());
    assert!(!begin_connect_guest(&mut state, "ble-AA"));
    assert!(state
        .native_warnings
        .contains(&"Peer ble-AA was not found during native connect request".to_string()));
    state.peers = vec![peer("ble-AA", "guest", "pending", false)];
    assert!(begin_connect_guest(&mut state, "ble-AA"));
    assert_eq!(connect_ble_peer_address("ble-AA"), Ok("AA".to_string()));
    assert_eq!(
        connect_ble_peer_address("host-native-pending"),
        Err("Peer is not a native BLE discovery result".to_string())
    );
}

#[test]
fn a_successful_connection_marks_the_peer_connected_and_trusted() {
    let mut state = fresh_state();
    state.session_role = Some("host".to_string());
    state.scanning = true;
    state.native_status.last_ble_error = Some("earlier".to_string());
    state.peers = vec![peer("ble-AA", "guest", "pending", false), peer("ble-BB", "guest", "pending", false)];
    finish_connect_guest(&mut state, "ble-AA", Ok(()), NOW);
    assert!(state.peers[0].connected);
    assert_eq!(state.peers[0].trust_status, "trusted");
    assert_eq!(state.peers[0].last_seen_iso, NOW);
    assert!(!state.peers[1].connected);
    assert_eq!(state.peers[1].trust_status, "pending");
    assert!(!state.scanning);
    assert!(state.native_status.last_ble_error.is_none());

    note_verified_peer(&mut state, "later");
    assert_eq!(state.peers[0].trust_status, "trusted");
    assert_eq!(state.peers[1].trust_status, "pending");

    finish_connect_guest(&mut state, "ble-BB", Err("timeout".to_string()), NOW);
    assert!(!state.peers[1].connected);
    assert_eq!(state.peers[1].trust_status, "pending");
    assert_eq!(state.native_status.last_ble_error.as_deref(), Some("timeout"));
    assert!(state
        .native_warnings
        .contains(&"Native BLE connect failed for ble-BB: timeout".to_string()));
}

#[test]
fn a_dropped_link_disconnects_and_demotes_trust() {
    let mut state = fresh_state();
    state.session_role = Some("host".to_string());
    state.scanning = true;
    state.peers = vec![peer("ble-AA", "guest", "trusted", true)];
    refresh_connection_state(&mut state, true);
    assert!(state.peers[0].connected);
    refresh_connection_state(&mut state, false);
    assert!(!state.peers[0].connected);
    assert_eq!(state.peers[0].trust_status, "pending");
    assert!(!state.scanning);
    assert_eq!(state.native_status.last_ble_error.as_deref(), Some("Guest peer disconnected."));
}

#[test]
fn a_guest_sees_its_host_once_subscribed_or_verified() {
    let mut state = fresh_state();
    state.session_role = Some("guest".to_string());
    state.peers = vec![peer("host-1", "host", "pending", false)];
    settle_incoming(&mut state, false, false, NOW);
    assert!(!state.peers[0].connected);
    settle_incoming(&mut state, false, true, NOW);
    assert!(state.peers[0].connected);
    assert_eq!(state.peers[0].trust_status, "pending");
    settle_incoming(&mut state, true, false, NOW);
    assert_eq!(state.peers[0].trust_status, "trusted");

    let mut state = fresh_state();
    state.peers = vec![peer("host-1", "host", "pending", false)];
    mark_host_connected(&mut state, NOW);
    assert!(state.peers[0].connected);
}

#[test]
fn transport_errors_are_reported() {
    let mut state = fresh_state();
    state.session_role = Some("guest".to_string());
    state.advertising = true;
    note_transport_error(&mut state, None, false);
    assert!(state.advertising);
    note_transport_error(&mut state, Some("lost".to_string()), false);
    assert!(!state.advertising);
    assert_eq!(state.native_status.last_ble_error.as_deref(), Some("lost"));
    assert_eq!(
        host_beacon_error(Some("x".to_string())),
        Some("Room discovery beacon error: x".to_string())
    );
    assert_eq!(host_beacon_error(None), None);
    let mut warnings = Vec::new();
    note_rejected_event(&mut warnings, "bad");
    assert_eq!(warnings, vec!["Rejected received BLE calculation event: bad".to_string()]);
}

#[test]
fn reset_clears_the_session_but_keeps_history() {
    let mut state = fresh_state();
    state.room_id = Some("r-1".to_string());
    state.session_role = Some("host".to_string());
    state.peers = vec![peer("ble-AA", "guest", "trusted", true)];
    state.native_status.last_ble_error = Some("x".to_string());
    state.history = vec![CalculationEntry {
        id: "e".to_string(),
        origin_device_id: "d".to_string(),
        expression: "1+1".to_string(),
        result: "2".to_string(),
        trusted: true,
        created_at_iso: "t".to_string(),
    }];
    reset_ble_session(&mut state);
    assert!(state.room_id.is_none() && state.session_role.is_none() && state.ble_role.is_none());
    assert!(state.peers.is_empty() && state.rooms.is_empty());
    assert!(state.native_status.last_ble_error.is_none());
    assert_eq!(state.history.len(), 1);
}

#[test]
fn submissions_are_trimmed_and_recorded_newest_first() {
    assert_eq!(submission_expression("  7 + 5 "), Some("7 + 5".to_string()));
    assert_eq!(submission_expression(" \t "), None);
    assert_eq!(trim_or_default("  Desk ", "Calculator Room"), "Desk");
    assert_eq!(trim_or_default("  ", "Calculator Room"), "Calculator Room");

    let mut state = fresh_state();
    let identity = identity_from_signing_key([8u8; 32], true);
    adopt_identity(&mut state, &identity);
    assert_eq!(state.local_device_id, identity.device_id());
    assert!(state.native_status.keychain_backed);

    for i in 0..(DEFAULT_HISTORY_LIMIT + 3) {
        let entry = new_calculation_entry(&state.local_device_id, format!("{i}+0"), format!("{i}"), NOW);
        assert_eq!(entry.id.len(), 36);
        let recorded = record_calculation(
            &mut state,
            entry,
            ValidationSummary::local_event_valid("ok".to_string()),
        );
        assert!(recorded.trusted);
        assert_eq!(state.history[0].expression, format!("{i}+0"));
    }
    assert_eq!(state.history.len(), DEFAULT_HISTORY_LIMIT);
    assert_eq!(state.native_status.last_validation.as_ref().map(|v| v.valid), Some(true));
}

#[test]
fn delivery_follows_the_role_and_the_link() {
    let identity = identity_from_signing_key([6u8; 32], false);
    let entry = new_calculation_entry(&identity.device_id(), "1+1".to_string(), "2".to_string(), NOW);
    let envelope = sign_calculation_event(&identity, &entry).expect("sign");

    let mut state = fresh_state();
    assert!(plan_guest_delivery(&mut state, &entry, &envelope, true).is_none());
    state.session_role = Some("host".to_string());
    state.peers = vec![peer("ble-AA", "guest", "pending", true)];
    let frames = plan_guest_delivery(&mut state, &entry, &envelope, true).expect("frames");
    assert!(frames.iter().all(|f| f.len() <= 512));
    note_delivery(&mut state, Ok(frames.len()));
    assert!(state.native_status.last_ble_error.is_none());
    note_delivery(&mut state, Err("write failed".to_string()));
    assert_eq!(state.native_status.last_ble_error.as_deref(), Some("write failed"));
    assert!(plan_guest_delivery(&mut state, &entry, &envelope, false).is_none());
    assert!(!state.peers[0].connected);

    let mut state = fresh_state();
    state.session_role = Some("guest".to_string());
    let mut stub = StubPeripheral::new();
    let frames = plan_host_delivery(&mut state, &entry, &envelope, stub.max_notify_frame_len()).expect("frames");
    assert!(frames.iter().all(|f| f.len() <= 182));
    let small = plan_host_delivery(&mut state, &entry, &envelope, Some(140)).expect("frames");
    assert!(small.iter().all(|f| f.len() <= 140));
    assert!(small.len() > frames.len());
    assert!(plan_host_delivery(&mut state, &entry, &envelope, Some(100)).is_none());
    assert_eq!(
        state.native_status.last_ble_error.as_deref(),
        Some("BLE frame budget of 100 bytes is too small to carry chunked events")
    );
    note_delivery(&mut state, stub.notify(&frames));
    assert_eq!(
        state.native_status.last_ble_error.as_deref(),
        Some("Guest BLE notify (guest -> host) is not implemented on this operating system.")
    );
    assert_eq!(host_frame_budget(None), 182);
    assert_eq!(host_frame_budget(Some(100)), 100);
    assert_eq!(host_frame_budget(Some(4000)), 512);
}

#[test]
fn timestamps_are_rfc3339_utc() {
    let now = now_iso();
    assert!(now.len() >= 20, "{now}");
    assert_eq!(&now[4..5], "-");
    assert_eq!(&now[10..11], "T");
    assert!(now.ends_with('Z'), "{now}");
    assert!(now.as_str() > "2020");
}

#[test]
fn persisted_history_replaces_the_in_memory_one_when_readable() {
    let mut state = fresh_state();
    let entry = new_calculation_entry("native-x", "1+2".to_string(), "3".to_string(), NOW);
    apply_persisted_history(&mut state, Some(vec![entry]), 4, "/data/evolve-calc.sqlite3".to_string());
    assert_eq!(state.history.len(), 1);
    assert_eq!(state.native_status.pending_outbox_events, 4);
    assert_eq!(state.native_status.sqlite_path.as_deref(), Some("/data/evolve-calc.sqlite3"));
    apply_persisted_history(&mut state, None, 0, "/data/evolve-calc.sqlite3".to_string());
    assert_eq!(state.history.len(), 1);
    assert_eq!(state.native_status.pending_outbox_events, 0);
}

#[test]
fn central_writes_prefer_acknowledged_writes() {
    assert_eq!(select_write_kind(true, true), Ok(WriteKind::WithResponse));
    assert_eq!(select_write_kind(false, true), Ok(WriteKind::WithoutResponse));
    assert_eq!(
        select_write_kind(false, false),
        Err("Calculator RX characteristic is not writable".to_string())
    );
    assert!(adapter_unavailable_message(true).starts_with("Bluetooth is turned off."));
    assert!(adapter_unavailable_message(false).contains("denied Bluetooth permission"));
}

#[test]
fn received_calculations_are_stored_as_trusted() {
    let mut entry = new_calculation_entry("native-x", "2*3".to_string(), "6".to_string(), NOW);
    entry.trusted = false;
    let stored = received_for_storage(&vec![entry.duplicate()]);
    assert_eq!(stored.len(), 1);
    assert!(stored[0].trusted);
    assert_eq!(stored[0].id, entry.id);
    assert_eq!(stored[0].expression, "2*3");
    assert_eq!(stored[0].result, "6");
    assert!(received_for_storage(&Vec::new()).is_empty());
}
