use ble_calculator_native::event::{CalculationEntry, SignedEnvelope};
use ble_calculator_native::framing::{frame_chunk, frame_event_for_ble};
use ble_calculator_native::inbound::{InboundReassembly, BLE_MAX_INFLIGHT_MESSAGES};
use ble_calculator_native::signing::{identity_from_signing_key, sign_calculation_event, NativeIdentity};
use ble_calculator_native::transport::{
    chunk_payload_size_for_frame_budget, chunk_payload_sized, reassemble_chunks,
    BleTransportChunk, BLE_CHUNK_FRAME_OVERHEAD_BYTES, BLE_CHUNK_PAYLOAD_SIZE,
    BLE_CONSERVATIVE_NOTIFY_FRAME_BYTES, BLE_MAX_FRAME_BYTES,
};
use ed25519_dalek::SigningKey;
use rand_core::OsRng;

fn test_identity() -> NativeIdentity {
    identity_from_signing_key(SigningKey::generate(&mut OsRng).to_bytes(), false)
}

fn test_entry(identity: &NativeIdentity) -> CalculationEntry {
    CalculationEntry {
        id: "evt-round-trip".to_string(),
        origin_device_id: format!("native-{}", identity.public_key_fingerprint()),
        expression: "2 + 2".to_string(),
        result: "4".to_string(),
        trusted: false,
        created_at_iso: "2026-01-01T00:00:00Z".to_string(),
    }
}

fn sealed(identity: &NativeIdentity, entry: &CalculationEntry) -> SignedEnvelope {
    sign_calculation_event(identity, entry).expect("sign")
}

#[test]
fn worst_case_frame_fits_mtu_budget() {
    let message_id = "123e4567-e89b-12d3-a456-426614174000".to_string();
    let payload = vec![0xABu8; BLE_CHUNK_PAYLOAD_SIZE];
    let chunks = chunk_payload_sized(message_id, &payload, BLE_CHUNK_PAYLOAD_SIZE);
    assert_eq!(chunks.len(), 1);
    for chunk in &chunks {
        let frame = frame_chunk(chunk);
        assert!(
            frame.len() <= BLE_MAX_FRAME_BYTES,
            "framed chunk is {} bytes, over the {BLE_MAX_FRAME_BYTES} budget",
            frame.len()
        );
    }
}

#[test]
fn rejects_frames_over_the_transport_budget() {
    let identity = test_identity();
    let entry = test_entry(&identity);
    let envelope = sealed(&identity, &entry);

    let oversized_message_id = "x".repeat(BLE_MAX_FRAME_BYTES);
    let error = frame_event_for_ble(oversized_message_id, &envelope, BLE_MAX_FRAME_BYTES)
        .expect_err("oversized frames must be rejected");
    assert!(error.contains("transport budget"), "unexpected error: {error}");

    frame_event_for_ble(entry.id.clone(), &envelope, BLE_MAX_FRAME_BYTES).expect("normal frames fit");
}

#[test]
fn chunk_frame_overhead_is_not_underestimated() {
    let chunk = BleTransportChunk {
        message_id: "123e4567-e89b-12d3-a456-426614174000".to_string(),
        index: u16::MAX,
        total: u16::MAX,
        payload_b64: String::new(),
    };
    let frame = frame_chunk(&chunk);
    assert!(
        frame.len() <= BLE_CHUNK_FRAME_OVERHEAD_BYTES,
        "empty-payload frame is {} bytes, over the {BLE_CHUNK_FRAME_OVERHEAD_BYTES}-byte overhead allowance",
        frame.len()
    );
}

#[test]
fn budget_sized_frames_fit_small_notify_limits() {
    let identity = test_identity();
    let entry = test_entry(&identity);
    let envelope = sealed(&identity, &entry);

    for budget in [BLE_CONSERVATIVE_NOTIFY_FRAME_BYTES, 120, 256, 512] {
        let frames = frame_event_for_ble(entry.id.clone(), &envelope, budget)
            .unwrap_or_else(|error| panic!("framing failed for budget {budget}: {error}"));
        assert!(!frames.is_empty());
        for frame in &frames {
            assert!(
                frame.len() <= budget,
                "frame is {} bytes, over the {budget}-byte budget",
                frame.len()
            );
        }
    }

    let error = frame_event_for_ble(entry.id.clone(), &envelope, 100)
        .expect_err("tiny budgets must be rejected");
    assert!(error.contains("too small"), "unexpected error: {error}");
}

#[test]
fn reassembles_ble_chunks() {
    let payload = b"calculation event payload that is longer than a single tiny test chunk";
    let chunks = chunk_payload_sized("event-1".to_string(), payload, BLE_CHUNK_PAYLOAD_SIZE);
    let reassembled = reassemble_chunks(&chunks).expect("chunks should reassemble");

    assert_eq!(reassembled, payload);
    assert!(chunks.iter().all(|chunk| chunk.message_id == "event-1"));
}

#[test]
fn frame_text_is_compact_camel_case_json() {
    let chunk = BleTransportChunk {
        message_id: "m\"1".to_string(),
        index: 2,
        total: 10,
        payload_b64: "QUJD".to_string(),
    };
    let frame = String::from_utf8(frame_chunk(&chunk)).expect("utf8");
    assert_eq!(
        frame,
        "{\"messageId\":\"m\\\"1\",\"index\":2,\"total\":10,\"payloadB64\":\"QUJD\"}"
    );
}

#[test]
fn payload_size_follows_the_frame_budget() {
    assert_eq!(chunk_payload_size_for_frame_budget(99), None);
    assert_eq!(chunk_payload_size_for_frame_budget(100), None);
    assert_eq!(chunk_payload_size_for_frame_budget(103), None);
    assert_eq!(chunk_payload_size_for_frame_budget(104), Some(3));
    assert_eq!(chunk_payload_size_for_frame_budget(182), Some(60));
    assert_eq!(chunk_payload_size_for_frame_budget(512), Some(BLE_CHUNK_PAYLOAD_SIZE));
}

#[test]
fn chunking_splits_in_order_and_encodes_each_piece() {
    let chunks = chunk_payload_sized("m".to_string(), b"abcdefg", 3);
    assert_eq!(chunks.len(), 3);
    assert_eq!(chunks[0].payload_b64, "YWJj");
    assert_eq!(chunks[1].payload_b64, "ZGVm");
    assert_eq!(chunks[2].payload_b64, "Zw");
    assert!(chunks.iter().all(|c| c.total == 3));
    let indexes: Vec<u16> = chunks.iter().map(|c| c.index).collect();
    assert_eq!(indexes, vec![0, 1, 2]);

    let empty = chunk_payload_sized("m".to_string(), b"", 3);
    assert_eq!(empty.len(), 1);
    assert_eq!(empty[0].payload_b64, "");
    assert_eq!(empty[0].total, 1);
    assert_eq!(reassemble_chunks(&empty).expect("empty payload"), Vec::<u8>::new());
}

#[test]
fn reassembly_accepts_chunks_in_any_order() {
    let payload: Vec<u8> = (0u8..=200).collect();
    let mut chunks = chunk_payload_sized("m".to_string(), &payload, 7);
    chunks.reverse();
    chunks.swap(1, 5);
    assert_eq!(reassemble_chunks(&chunks).expect("reassemble"), payload);
}

fn chunk(id: &str, index: u16, total: u16, b64: &str) -> BleTransportChunk {
    BleTransportChunk {
        message_id: id.to_string(),
        index,
        total,
        payload_b64: b64.to_string(),
    }
}

#[test]
fn reassembly_reports_each_failure() {
    assert_eq!(reassemble_chunks(&[]), Err("No BLE chunks were provided".to_string()));
    assert_eq!(
        reassemble_chunks(&[chunk("m", 0, 2, "YQ")]),
        Err("BLE chunk set is incomplete".to_string())
    );
    assert_eq!(
        reassemble_chunks(&[chunk("m", 0, 0, "YQ")]),
        Err("BLE chunk set is incomplete".to_string())
    );
    assert_eq!(
        reassemble_chunks(&[chunk("m", 0, 2, "YQ"), chunk("n", 1, 2, "YQ")]),
        Err("BLE chunks contain mixed message ids".to_string())
    );
    assert_eq!(
        reassemble_chunks(&[chunk("m", 0, 2, "YQ"), chunk("m", 0, 2, "YQ")]),
        Err("BLE chunks are out of sequence".to_string())
    );
    let error = reassemble_chunks(&[chunk("m", 0, 1, "!!")]).expect_err("not base64url");
    assert!(error.starts_with("BLE chunk payload was not base64url encoded: "), "{error}");
}

fn frame_of(c: &BleTransportChunk) -> Result<BleTransportChunk, String> {
    Ok(BleTransportChunk {
        message_id: c.message_id.clone(),
        index: c.index,
        total: c.total,
        payload_b64: c.payload_b64.clone(),
    })
}

#[test]
fn inbound_reassembly_completes_a_message_once_every_chunk_arrived() {
    let payload = b"a signed calculation event travelling in several chunks";
    let chunks = chunk_payload_sized("evt-7".to_string(), payload, 10);
    let mut buffer = InboundReassembly::new();
    let mut warnings = Vec::new();
    let last = chunks.len() - 1;
    for (i, c) in chunks.iter().enumerate() {
        let out = buffer.ingest_frame(frame_of(c), &mut warnings);
        if i < last {
            assert!(out.is_none());
            // A resent chunk replaces the stored one instead of counting twice.
            assert!(buffer.ingest_frame(frame_of(c), &mut warnings).is_none());
            assert_eq!(buffer.len(), 1);
        } else {
            assert_eq!(out.expect("complete"), payload.to_vec());
        }
    }
    assert_eq!(buffer.len(), 0);
    assert!(warnings.is_empty());

    assert!(buffer.ingest_frame(Err("bad json".to_string()), &mut warnings).is_none());
    assert_eq!(warnings, vec!["Dropped malformed inbound BLE frame: bad json".to_string()]);
    buffer.clear();
    assert_eq!(buffer.len(), 0);
}

#[test]
fn inbound_reassembly_caps_incomplete_messages() {
    let mut buffer = InboundReassembly::new();
    let mut warnings = Vec::new();
    for i in 0..(BLE_MAX_INFLIGHT_MESSAGES + 5) {
        let c = chunk(&format!("m-{i}"), 0, 2, "YQ");
        assert!(buffer.ingest_frame(Ok(c), &mut warnings).is_none());
        assert!(buffer.len() <= BLE_MAX_INFLIGHT_MESSAGES);
    }
    assert_eq!(buffer.len(), BLE_MAX_INFLIGHT_MESSAGES);
    assert_eq!(
        warnings,
        vec!["Too many incomplete inbound BLE messages; dropping new chunk.".to_string()]
    );
    // A chunk of a message already in flight is still taken in.
    let done = buffer.ingest_frame(Ok(chunk("m-0", 1, 2, "Yg")), &mut warnings);
    assert_eq!(done, Some(b"ab".to_vec()));
    // Chunks announcing no chunks at all are ignored.
    assert!(buffer.ingest_frame(Ok(chunk("z", 0, 0, "")), &mut warnings).is_none());
    assert_eq!(buffer.len(), BLE_MAX_INFLIGHT_MESSAGES - 1);
}

#[test]
fn inbound_reassembly_reports_a_broken_chunk_set() {
    let mut buffer = InboundReassembly::new();
    let mut warnings = Vec::new();
    assert!(buffer.ingest_frame(Ok(chunk("m", 0, 1, "!!")), &mut warnings).is_none());
    assert_eq!(warnings.len(), 1);
    assert!(warnings[0].starts_with("Failed to reassemble received BLE chunks: "));
    assert_eq!(buffer.len(), 0);
}

#[test]
fn inbound_reassembly_takes_resent_chunks_in_any_order() {
    let payload = b"twelve bytes";
    let chunks = chunk_payload_sized("m".to_string(), payload, 6);
    assert_eq!(chunks.len(), 2);
    for order in [[0usize, 0, 1], [1, 1, 0]] {
        let mut buffer = InboundReassembly::new();
        let mut warnings = Vec::new();
        let mut done = Vec::new();
        for k in order {
            if let Some(bytes) = buffer.ingest_frame(frame_of(&chunks[k]), &mut warnings) {
                done.push(bytes);
            }
        }
        assert_eq!(done, vec![payload.to_vec()]);
        assert!(warnings.is_empty());
        assert_eq!(buffer.len(), 0);
    }
}

#[test]
fn reassembly_takes_only_canonical_unpadded_base64url() {
    assert_eq!(reassemble_chunks(&[chunk("m", 0, 1, "YQ")]), Ok(b"a".to_vec()));
    assert_eq!(reassemble_chunks(&[chunk("m", 0, 1, "-_8")]), Ok(vec![0xfb, 0xff]));
    for text in ["YR", "YQ==", "Y", "YQ+/"] {
        let error = reassemble_chunks(&[chunk("m", 0, 1, text)]).expect_err(text);
        assert!(error.starts_with("BLE chunk payload was not base64url encoded: "), "{error}");
    }
}
