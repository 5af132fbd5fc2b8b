use ble_calculator_native::ble::{build_join_local_name, build_room_local_name};
use ble_calculator_native::advertisement::{
    extract_advertisement_payload, merge_discovered_peers, merge_discovered_rooms,
    parse_calculator_advertisement, parse_local_name_advertisement, peer_from_advertisement,
    room_from_advertisement, BleAdvertisementPayload, PeerSummary, RoomSummary,
};
use ble_calculator_native::scan::{
    format_seen_device_names, scan_ble_calculator_advertisements, scan_ble_join_requests,
    scan_ble_rooms, ScannedDevice,
};

fn peer(id: &str, label: &str, trust: &str, connected: bool, seen: &str, rssi: Option<i16>) -> PeerSummary {
    PeerSummary {
        id: id.to_string(),
        label: label.to_string(),
        session_role: "guest".to_string(),
        ble_role: "peripheral".to_string(),
        trust_status: trust.to_string(),
        connected,
        last_seen_iso: seen.to_string(),
        rssi,
    }
}

#[test]
fn preserves_connected_peer_when_scan_updates_existing_peer() {
    let existing = vec![peer("ble-1", "Old", "trusted", true, "old", None)];
    let discovered = vec![peer("ble-1", "New", "pending", false, "new", Some(-72))];

    let merged = merge_discovered_peers(&existing, discovered);

    assert_eq!(merged[0].label, "New");
    assert!(merged[0].connected);
    assert_eq!(merged[0].trust_status, "trusted");
    assert_eq!(merged[0].rssi, Some(-72));
}

#[test]
fn merge_appends_unknown_peers_in_scan_order() {
    let existing = vec![peer("ble-1", "One", "pending", false, "t0", None)];
    let discovered = vec![
        peer("ble-2", "Two", "pending", false, "t1", Some(-40)),
        peer("ble-1", "One again", "pending", false, "t1", Some(-50)),
        peer("ble-3", "Three", "pending", false, "t1", None),
    ];
    let merged = merge_discovered_peers(&existing, discovered);
    let ids: Vec<&str> = merged.iter().map(|p| p.id.as_str()).collect();
    assert_eq!(ids, vec!["ble-1", "ble-2", "ble-3"]);
    assert_eq!(merged[0].label, "One again");
    assert_eq!(merged[0].last_seen_iso, "t1");
}

#[test]
fn merge_refreshes_every_scanned_room_field() {
    let existing = vec![RoomSummary {
        id: "r-1".to_string(),
        name: "Old".to_string(),
        host_device_id: "ble-A".to_string(),
        trust_status: "trusted".to_string(),
        joinable: false,
        last_seen_iso: "old".to_string(),
        rssi: None,
    }];
    let discovered = vec![RoomSummary {
        id: "r-1".to_string(),
        name: "New".to_string(),
        host_device_id: "ble-B".to_string(),
        trust_status: "pending".to_string(),
        joinable: true,
        last_seen_iso: "new".to_string(),
        rssi: Some(-30),
    }];
    let merged = merge_discovered_rooms(&existing, discovered);
    assert_eq!(merged.len(), 1);
    assert_eq!(merged[0].name, "New");
    assert_eq!(merged[0].host_device_id, "ble-B");
    assert_eq!(merged[0].trust_status, "pending");
    assert!(merged[0].joinable);
    assert_eq!(merged[0].rssi, Some(-30));
}

#[test]
fn parses_short_join_local_name() {
    let payload = parse_local_name_advertisement("EVC:J:r-abc123").expect("advertisement should parse");
    let peer = peer_from_advertisement("AA-BB".to_string(), payload, Some(-58), Some("r-abc123"))
        .expect("join request should become a peer");

    assert_eq!(peer.id, "ble-AA-BB");
    assert_eq!(peer.rssi, Some(-58));
    assert_eq!(peer.session_role, "guest");
}

#[test]
fn matches_room_filter_ignoring_case_and_whitespace() {
    let payload = parse_local_name_advertisement("EVC:J:r-abc123").expect("advertisement should parse");
    let peer = peer_from_advertisement("AA-BB".to_string(), payload, None, Some(" R-ABC123 "));

    assert!(peer.is_some());
}

#[test]
fn parses_legacy_join_request_local_name() {
    let payload = parse_local_name_advertisement("EvolveCalc:JOIN:room-123:MacBook Guest")
        .expect("advertisement should parse");
    let peer = peer_from_advertisement("AA-BB".to_string(), payload, Some(-58), Some("room-123"))
        .expect("join request should become a peer");

    assert_eq!(peer.id, "ble-AA-BB");
    assert_eq!(peer.label, "MacBook Guest");
    assert_eq!(peer.rssi, Some(-58));
    assert_eq!(peer.session_role, "guest");
}

#[test]
fn parses_legacy_join_local_name_with_truncated_label() {
    let payload = parse_local_name_advertisement("EvolveCalc:JOIN:room-123")
        .expect("truncated advertisement should parse");
    let peer = peer_from_advertisement("AA-BB".to_string(), payload, None, Some("room-123"))
        .expect("join request should become a peer");

    assert_eq!(peer.label, "Evolve Calc Guest AA-BB");
}

#[test]
fn rejects_join_request_for_another_room() {
    let payload = parse_local_name_advertisement("EvolveCalc:JOIN:room-abc:Guest")
        .expect("advertisement should parse");
    let peer = peer_from_advertisement("AA-BB".to_string(), payload, None, Some("room-other"));

    assert!(peer.is_none());
}

#[test]
fn parses_short_room_local_name() {
    let payload = parse_local_name_advertisement("EVC:R:r-abc123").expect("advertisement should parse");
    let room = room_from_advertisement("AA-BB".to_string(), payload, Some(-61))
        .expect("room advertisement should become a room");

    assert_eq!(room.id, "r-abc123");
    assert_eq!(room.rssi, Some(-61));
    assert_eq!(room.name, "Room r-abc123");
    assert_eq!(room.host_device_id, "ble-AA-BB");
}

#[test]
fn parses_legacy_room_local_name() {
    let payload = parse_local_name_advertisement("EvolveCalc:ROOM:room-abc:Desk Calculator")
        .expect("advertisement should parse");
    let room = room_from_advertisement("AA-BB".to_string(), payload, Some(-61))
        .expect("room advertisement should become a room");

    assert_eq!(room.id, "room-abc");
    assert_eq!(room.rssi, Some(-61));
    assert_eq!(room.name, "Desk Calculator");
    assert_eq!(room.host_device_id, "ble-AA-BB");
}

#[test]
fn parses_payload_embedded_in_btleplug_merged_name() {
    let payload = parse_local_name_advertisement("Sofia's MacBook Pro [EVC:R:r-790b50]")
        .expect("merged room advertisement should parse");
    let room = room_from_advertisement("AA-BB".to_string(), payload, None)
        .expect("room advertisement should become a room");
    assert_eq!(room.id, "r-790b50");

    let payload = parse_local_name_advertisement("Guest MacBook [EVC:J:r-790b50]")
        .expect("merged join advertisement should parse");
    let peer = peer_from_advertisement("AA-BB".to_string(), payload, None, Some("r-790b50"));
    assert!(peer.is_some());
}

#[test]
fn parses_legacy_payload_embedded_in_btleplug_merged_name() {
    let payload =
        parse_local_name_advertisement("MacBook Pro [EvolveCalc:JOIN:room-123:MacBook Guest]")
            .expect("merged legacy advertisement should parse");
    let peer = peer_from_advertisement("AA-BB".to_string(), payload, None, Some("room-123"))
        .expect("join request should become a peer");
    assert_eq!(peer.label, "MacBook Guest");
}

#[test]
fn rejects_unrelated_local_name() {
    assert!(parse_local_name_advertisement("SomeHeadphones").is_none());
    assert!(parse_local_name_advertisement("EVCX:J:r-abc123").is_none());
    assert!(parse_local_name_advertisement("Sofia's MacBook Pro").is_none());
}

#[test]
fn extracts_the_payload_from_a_wrapped_name() {
    assert_eq!(
        extract_advertisement_payload("Mac [EVC:R:r-1]").as_deref(),
        Some("EVC:R:r-1")
    );
    assert_eq!(extract_advertisement_payload("plain name"), None);
}

#[test]
fn a_name_without_a_room_id_does_not_parse() {
    assert!(parse_local_name_advertisement("EVC:J:").is_none());
    assert!(parse_local_name_advertisement("EVC:J:   ").is_none());
    assert!(parse_local_name_advertisement("EVC:J").is_none());
}

#[test]
fn service_data_wins_over_the_local_name() {
    let service = BleAdvertisementPayload {
        kind: "ROOM".to_string(),
        room_id: Some("r-service".to_string()),
        room_name: None,
        device_id: Some("host-1".to_string()),
        label: None,
    };
    let parsed = parse_calculator_advertisement(Some(service), Some("EVC:R:r-name".to_string()))
        .expect("service data should be used");
    assert_eq!(parsed.room_id.as_deref(), Some("r-service"));
    let parsed = parse_calculator_advertisement(None, Some("EVC:R:r-name".to_string()))
        .expect("the local name should be used");
    assert_eq!(parsed.room_id.as_deref(), Some("r-name"));
    assert!(parse_calculator_advertisement(None, None).is_none());
}

fn device(address: &str, name: Option<&str>) -> ScannedDevice {
    ScannedDevice {
        address: address.to_string(),
        local_name: name.map(|n| n.to_string()),
        service_payload: None,
        rssi: Some(-50),
    }
}

#[test]
fn scan_keeps_only_calculator_advertisements_and_names_every_device() {
    let long_name = "n".repeat(80);
    let devices = vec![
        device("A", Some("EVC:J:r-abc123")),
        device("B", Some("Headphones")),
        device("C", None),
        device("D", Some(&long_name)),
        device("E", Some("EVC:R:r-abc123")),
    ];
    let scan = scan_ble_calculator_advertisements(&devices);
    assert_eq!(scan.raw_device_count, 5);
    assert_eq!(scan.items.len(), 2);
    assert_eq!(scan.items[0].0, "A");
    assert_eq!(scan.items[1].0, "E");
    assert_eq!(scan.raw_device_names[2], "<unnamed>");
    assert_eq!(scan.raw_device_names[3], "n".repeat(64));

    let joins = scan_ble_join_requests(scan, Some("R-ABC123"), "2026-01-01T00:00:00Z");
    assert_eq!(joins.items.len(), 1);
    assert_eq!(joins.items[0].id, "ble-A");
    assert_eq!(joins.items[0].last_seen_iso, "2026-01-01T00:00:00Z");

    let scan = scan_ble_calculator_advertisements(&devices);
    let rooms = scan_ble_rooms(scan, "t");
    assert_eq!(rooms.items.len(), 1);
    assert_eq!(rooms.items[0].id, "r-abc123");
    assert_eq!(rooms.items[0].host_device_id, "ble-E");
}

#[test]
fn seen_device_names_are_joined_with_commas() {
    let names = vec!["a".to_string(), "<unnamed>".to_string(), "c".to_string()];
    assert_eq!(format_seen_device_names(&names), "a, <unnamed>, c");
    assert_eq!(format_seen_device_names(&[]), "");
}

#[test]
fn a_guest_join_name_is_accepted_by_its_host() {
    let host_room = "r-0a9f3c";
    for typed in ["r-0a9f3c", " R-0A9F3C ", "\tr-0A9f3C"] {
        let name = build_join_local_name(typed);
        let payload = parse_local_name_advertisement(&name).expect("own join name parses");
        assert_eq!(payload.kind, "JOIN");
        assert_eq!(payload.room_id.as_deref(), Some(host_room));
        assert!(peer_from_advertisement("AA".to_string(), payload, None, Some(host_room)).is_some());
    }
    let payload = parse_local_name_advertisement(&build_room_local_name(host_room))
        .expect("own room beacon parses");
    let room = room_from_advertisement("HOST".to_string(), payload, None).expect("room");
    assert_eq!(room.id, host_room);
    assert!(room.joinable);
}

#[test]
fn built_names_with_edge_colons_parse_back_trimmed() {
    let payload = parse_local_name_advertisement(&build_join_local_name(" :R-1: ")).expect("parses");
    assert_eq!(payload.kind, "JOIN");
    assert_eq!(payload.room_id.as_deref(), Some("r-1"));
    assert!(payload.room_name.is_none() && payload.label.is_none());
    let payload = parse_local_name_advertisement(&build_room_local_name("r-2:")).expect("parses");
    assert_eq!(payload.kind, "ROOM");
    assert_eq!(payload.room_id.as_deref(), Some("r-2"));
    assert!(parse_local_name_advertisement(&build_join_local_name("::")).is_none());
    assert!(parse_local_name_advertisement(&build_room_local_name("   ")).is_none());
}
