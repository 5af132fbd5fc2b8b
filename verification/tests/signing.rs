use ble_calculator_native::credential::validate_credential_bundle;
use ble_calculator_native::encoding::to_hex;
use ble_calculator_native::event::{envelope_bytes, entry_to_json, CalculationEntry, SignedEnvelope};
use ble_calculator_native::signing::{
    bind_received_entry, check_local_envelope, decode_signing_key, fingerprint_of_digest,
    fingerprint_public_key, signing_input_of,
    identity_from_signing_key, load_or_create_identity, open_received_envelope,
    sign_calculation_event, validate_local_entry, NativeIdentity,
};
use base64::Engine;
use ed25519_dalek::{SigningKey, Verifier};
use rand_core::OsRng;
use serde_json::Value;
use sha2::Digest;

fn test_identity() -> NativeIdentity {
    identity_from_signing_key(SigningKey::generate(&mut OsRng).to_bytes(), false)
}

fn test_entry(identity: &NativeIdentity) -> CalculationEntry {
    CalculationEntry {
        id: "evt-round-trip".to_string(),
        origin_device_id: format!("native-{}", identity.public_key_fingerprint()),
        expression: "2 + 2".to_string(),
        result: "4".to_string(),
        trusted: false,
        created_at_iso: "2026-01-01T00:00:00Z".to_string(),
    }
}

fn text_field(value: &Value, key: &str) -> Result<String, String> {
    value
        .get(key)
        .and_then(|v| v.as_str())
        .map(|s| s.to_string())
        .ok_or_else(|| format!("missing field `{key}`"))
}

fn parse_envelope(bytes: &[u8]) -> Result<SignedEnvelope, String> {
    let value: Value = serde_json::from_slice(bytes).map_err(|e| e.to_string())?;
    Ok(SignedEnvelope {
        protected: text_field(&value, "protected")?,
        payload: text_field(&value, "payload")?,
        signature: text_field(&value, "signature")?,
    })
}

fn parse_entry(bytes: &[u8]) -> Result<CalculationEntry, String> {
    let value: Value = serde_json::from_slice(bytes).map_err(|e| e.to_string())?;
    Ok(CalculationEntry {
        id: text_field(&value, "id")?,
        origin_device_id: text_field(&value, "originDeviceId")?,
        expression: text_field(&value, "expression")?,
        result: text_field(&value, "result")?,
        trusted: value.get("trusted").and_then(|v| v.as_bool()).ok_or("missing field `trusted`")?,
        created_at_iso: text_field(&value, "createdAtIso")?,
    })
}

/// The receive path: decode the envelope, open it, decode the entry, bind it.
fn verify_received_calculation_event(bytes: &[u8]) -> Result<CalculationEntry, String> {
    let envelope =
        parse_envelope(bytes).map_err(|e| format!("Invalid received signed envelope: {e}"))?;
    let opened = open_received_envelope(&envelope)?;
    bind_received_entry(parse_entry(&opened.payload), &opened.signer_device_id)
}

#[test]
fn verifies_received_signed_event_round_trip() {
    let identity = test_identity();
    let entry = test_entry(&identity);
    let envelope = sign_calculation_event(&identity, &entry).expect("sign");
    let bytes = envelope_bytes(&envelope);

    let verified = verify_received_calculation_event(&bytes).expect("verify");
    assert_eq!(verified.id, "evt-round-trip");
    assert_eq!(verified.result, "4");
    assert_eq!(verified.origin_device_id, entry.origin_device_id);
}

#[test]
fn rejects_received_event_whose_origin_is_not_the_signer() {
    let identity = test_identity();
    let mut entry = test_entry(&identity);
    entry.origin_device_id = "native-someoneelse".to_string();
    let envelope = sign_calculation_event(&identity, &entry).expect("sign");
    let bytes = envelope_bytes(&envelope);

    let error = verify_received_calculation_event(&bytes).expect_err("must reject");
    assert!(error.contains("holder key binding"), "unexpected error: {error}");
}

#[test]
fn rejects_received_event_with_tampered_payload() {
    let identity = test_identity();
    let entry = test_entry(&identity);
    let mut envelope = sign_calculation_event(&identity, &entry).expect("sign");
    envelope.payload.push_str("AA");
    let bytes = envelope_bytes(&envelope);

    let error = verify_received_calculation_event(&bytes).expect_err("must reject");
    assert!(
        error.contains("signature verification failed") || error.contains("payload"),
        "unexpected error: {error}"
    );
}

#[test]
fn envelope_is_a_compact_jws_of_the_entry() {
    let secret = [7u8; 32];
    let identity = identity_from_signing_key(secret, true);
    let entry = test_entry(&identity);
    let envelope = sign_calculation_event(&identity, &entry).expect("sign");
    let engine = base64::engine::general_purpose::URL_SAFE_NO_PAD;

    let header = engine.decode(&envelope.protected).expect("header");
    let header: Value = serde_json::from_slice(&header).expect("header json");
    assert_eq!(header["alg"], "EdDSA");
    assert_eq!(header["typ"], "calc-event+jws");
    assert_eq!(header["kid"], identity.public_key_fingerprint().as_str());
    let public = SigningKey::from_bytes(&secret).verifying_key();
    assert_eq!(header["jwk"], engine.encode(public.as_bytes()).as_str());

    let payload = engine.decode(&envelope.payload).expect("payload");
    assert_eq!(payload, entry_to_json(&entry).into_bytes());

    let signature = engine.decode(&envelope.signature).expect("signature");
    assert_eq!(signature.len(), 64);
    let signature = ed25519_dalek::Signature::from_bytes(&signature.try_into().unwrap());
    let input = format!("{}.{}", envelope.protected, envelope.payload);
    assert!(public.verify(input.as_bytes(), &signature).is_ok());
}

#[test]
fn fingerprint_is_hex_of_the_first_twelve_digest_bytes() {
    let public = SigningKey::from_bytes(&[3u8; 32]).verifying_key().to_bytes();
    let digest = sha2::Sha256::digest(public);
    let expected: String = digest[..12].iter().map(|b| format!("{b:02x}")).collect();
    let fingerprint = fingerprint_public_key(&public);
    assert_eq!(fingerprint, expected);
    assert_eq!(fingerprint.len(), 24);
    assert_eq!(to_hex(&[0x00, 0x0f, 0xa5, 0xff]), "000fa5ff");
}

#[test]
fn identity_signs_as_its_fingerprint_device() {
    let identity = identity_from_signing_key([9u8; 32], true);
    assert!(identity.keychain_backed());
    assert_eq!(identity.device_id(), format!("native-{}", identity.public_key_fingerprint()));
}

#[test]
fn local_envelope_checks_out_and_binds_to_this_device() {
    let identity = test_identity();
    let entry = test_entry(&identity);
    let envelope = sign_calculation_event(&identity, &entry).expect("sign");
    let payload = check_local_envelope(&identity, &envelope).expect("own signature");
    assert_eq!(payload, entry_to_json(&entry).into_bytes());
    let summary = validate_local_entry(&identity, parse_entry(&payload)).expect("valid");
    assert!(summary.valid);
    assert_eq!(summary.kind, "local-jws-calculation");
    assert!(summary.issuer_trusted && summary.holder_bound);
    assert_eq!(summary.reason, "Local calculation event signature and holder binding verified");

    let other = test_identity();
    let error = check_local_envelope(&other, &envelope).expect_err("a foreign key must not verify");
    assert!(error.starts_with("Calculation JWS verification failed: "), "{error}");
    let error = validate_local_entry(&other, Ok(entry)).expect_err("foreign origin");
    assert_eq!(error, "Calculation event failed holder key binding");
    let error = validate_local_entry(&other, Err("eof".to_string())).expect_err("bad payload");
    assert_eq!(error, "Invalid calculation JWS payload: eof");
}

#[test]
fn local_envelope_reports_broken_signatures() {
    let identity = test_identity();
    let entry = test_entry(&identity);
    let mut envelope = sign_calculation_event(&identity, &entry).expect("sign");
    envelope.signature = "!!".to_string();
    let error = check_local_envelope(&identity, &envelope).expect_err("bad encoding");
    assert!(error.starts_with("Invalid calculation JWS signature encoding: "), "{error}");
    envelope.signature = "AAAA".to_string();
    let error = check_local_envelope(&identity, &envelope).expect_err("short signature");
    assert_eq!(error, "Invalid calculation JWS signature length");
}

fn envelope_with(protected: &str, payload: &str, signature: &str) -> SignedEnvelope {
    SignedEnvelope {
        protected: protected.to_string(),
        payload: payload.to_string(),
        signature: signature.to_string(),
    }
}

#[test]
fn received_envelope_reports_each_header_failure() {
    let engine = base64::engine::general_purpose::URL_SAFE_NO_PAD;
    let cases: Vec<(String, &str)> = vec![
        ("!!".to_string(), "Invalid protected header encoding: "),
        (engine.encode(b"not json"), "Invalid protected header: "),
        (engine.encode(b"{\"alg\":\"EdDSA\"}"), "Received event is missing the embedded public key"),
        (engine.encode(b"{\"jwk\":\"!!\"}"), "Invalid embedded public key encoding: "),
        (engine.encode(b"{\"jwk\":\"AAAA\"}"), "Invalid embedded public key length"),
    ];
    for (protected, expected) in cases {
        let error = open_received_envelope(&envelope_with(&protected, "e30", "AA"))
            .err()
            .expect("must reject");
        assert!(error.starts_with(expected), "{error} does not start with {expected}");
    }
}

#[test]
fn received_envelope_reports_signature_failures() {
    let identity = test_identity();
    let entry = test_entry(&identity);
    let envelope = sign_calculation_event(&identity, &entry).expect("sign");
    let mut broken = envelope_with(&envelope.protected, &envelope.payload, "!!");
    let error = open_received_envelope(&broken).err().expect("bad encoding");
    assert!(error.starts_with("Invalid received signature encoding: "), "{error}");
    broken.signature = "AAAA".to_string();
    let error = open_received_envelope(&broken).err().expect("short");
    assert_eq!(error, "Invalid received signature length");
    broken.signature = envelope.signature.clone();
    broken.payload = "e30".to_string();
    let error = open_received_envelope(&broken).err().expect("tampered");
    assert!(error.starts_with("Received event signature verification failed: "), "{error}");

    let opened = open_received_envelope(&envelope).expect("genuine");
    assert_eq!(opened.signer_device_id, identity.device_id());
    assert_eq!(opened.payload, entry_to_json(&entry).into_bytes());
}

#[test]
fn binding_a_received_entry_checks_its_origin() {
    let identity = test_identity();
    let entry = test_entry(&identity);
    let signer = identity.device_id();
    let bound = bind_received_entry(Ok(test_entry(&identity)), &signer).expect("bound");
    assert_eq!(bound.id, entry.id);
    assert_eq!(
        bind_received_entry(Ok(entry), "native-other").err(),
        Some("Received event failed holder key binding".to_string())
    );
    assert_eq!(
        bind_received_entry(Err("eof".to_string()), &signer).err(),
        Some("Invalid received payload: eof".to_string())
    );
}

#[test]
fn keychain_keys_decode_only_at_full_length() {
    let engine = base64::engine::general_purpose::URL_SAFE_NO_PAD;
    let key = [5u8; 32];
    assert_eq!(decode_signing_key(&engine.encode(key)), Some(key));
    assert_eq!(decode_signing_key(&engine.encode([5u8; 31])), None);
    assert_eq!(decode_signing_key("!!"), None);
}

#[test]
fn a_missing_keychain_key_falls_back_to_memory_with_a_warning() {
    let mut warnings = Vec::new();
    let stored = load_or_create_identity(Some([1u8; 32]), &mut warnings);
    assert!(stored.keychain_backed());
    assert!(warnings.is_empty());
    let fresh = load_or_create_identity(None, &mut warnings);
    assert!(!fresh.keychain_backed());
    assert_eq!(
        warnings,
        vec!["Using an in-memory device signing key because OS keychain storage is unavailable.".to_string()]
    );
    load_or_create_identity(None, &mut warnings);
    assert_eq!(warnings.len(), 1);
}

#[test]
fn credential_bundles_are_triaged_and_refused() {
    let empty = validate_credential_bundle("   ");
    assert_eq!(empty.kind, "empty");
    assert!(!empty.valid);
    let json = validate_credential_bundle(" {\"vc\":1}");
    assert_eq!(json.kind, "json-credential");
    let jose = validate_credential_bundle("aaa.bbb.ccc");
    assert_eq!(jose.kind, "compact-jose");
    assert_eq!(
        jose.reason,
        "Compact JOSE payload detected, but issuer trust and key resolution are not configured yet"
    );
    let unknown = validate_credential_bundle("aaa.bbb");
    assert_eq!(unknown.kind, "unknown");
    assert!(!unknown.issuer_trusted && !unknown.holder_bound);
}

#[test]
fn fingerprints_take_the_digest_head_and_inputs_join_with_a_dot() {
    let mut digest = [0u8; 32];
    digest[0] = 0xab;
    digest[11] = 0x01;
    digest[12] = 0xff;
    assert_eq!(fingerprint_of_digest(&digest), "ab0000000000000000000001");
    assert_eq!(signing_input_of("aGVhZA", "Ym9keQ"), b"aGVhZA.Ym9keQ".to_vec());
}
