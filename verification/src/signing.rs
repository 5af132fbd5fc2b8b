//! The device identity and signed calculation events: Ed25519 keys and
//! signatures (`ed25519-dalek`), SHA-256 key fingerprints (`sha2`), and the
//! compact JWS envelope an event travels in.
use vstd::prelude::*;
use vstd::utf8::encode_utf8;
use ed25519_dalek::{Signer, Verifier};
use sha2::Digest;
use crate::advertisement::opt_view;
use crate::credential::{local_event_summary, ValidationSummary};
use crate::encoding::{
    b64url_decode, b64url_decode_text, b64url_encode, b64url_encode_bytes, decode_error_text,
    hex_digit, hex_of, to_hex,
};
use crate::event::{
    entry_json, entry_to_json, header_json, header_to_json, CalculationEntry, EntryView,
    EnvelopeView, SignedEnvelope,
};
use crate::json::{is_plain, json_string, lemma_b64_plain, lemma_escape_plain};
use crate::text::{push_char, push_str};
use crate::utf8::{lemma_encode_len, lemma_utf8_len_bound, str_bytes, utf8_len};
use crate::warnings::{push_warning_once, strings_view, with_warning};

verus! {

#[verifier::external_type_specification]
#[verifier::external_body]
pub struct ExSignatureError(ed25519_dalek::SignatureError);

#[verifier::external_type_specification]
#[verifier::external_body]
pub struct ExJsonError(serde_json::Error);

/// What `SigningKey::verifying_key` gives, as bytes, for the key that
/// `SigningKey::from_bytes` makes of `secret`.
pub uninterp spec fn ed25519_public(secret: Seq<u8>) -> [u8; 32];

/// What `Signer::sign` of the key made of `secret` gives for `message`.
pub uninterp spec fn ed25519_sign(secret: Seq<u8>, message: Seq<u8>) -> [u8; 64];

/// Whether `VerifyingKey::from_bytes` accepts `public`.
pub uninterp spec fn ed25519_key_valid(public: Seq<u8>) -> bool;

/// Whether `Verifier::verify` of the key `public` accepts `signature` on `message`.
pub uninterp spec fn ed25519_accepts(public: Seq<u8>, message: Seq<u8>, signature: Seq<u8>) -> bool;

/// What `Sha256::digest` gives for `bytes`.
pub uninterp spec fn sha256(bytes: Seq<u8>) -> [u8; 32];

/// What `serde_json::from_slice` into a `serde_json::Value` gives for `text`,
/// read at `key` as a string: `None` when `text` is not JSON, `Some(None)` when
/// no string stands under `key`.
pub uninterp spec fn json_str_field(text: Seq<u8>, key: Seq<char>) -> Option<Option<Seq<char>>>;

/// `SigningKey::from_bytes(secret).verifying_key().to_bytes()`. Claimed: the
/// named public key of `secret`.
#[verifier::external_body]
fn public_key_of(secret: &[u8; 32]) -> (public: [u8; 32])
    ensures
        public == ed25519_public(secret@),
{
    ed25519_dalek::SigningKey::from_bytes(secret).verifying_key().to_bytes()
}

/// `Signer::sign` of `SigningKey::from_bytes(secret)`. Ed25519 signatures are
/// deterministic (RFC 8032); claimed: the named signature.
#[verifier::external_body]
fn sign_bytes(secret: &[u8; 32], message: &[u8]) -> (signature: [u8; 64])
    ensures
        signature == ed25519_sign(secret@, message@),
{
    ed25519_dalek::SigningKey::from_bytes(secret).sign(message).to_bytes()
}

/// `VerifyingKey::from_bytes`. Claimed: it succeeds exactly when the name says
/// so, and always for the public key of a secret key (the compression of a
/// curve point decompresses).
#[verifier::external_body]
fn check_public_key(public: &[u8; 32]) -> (r: Result<(), ed25519_dalek::SignatureError>)
    ensures
        r is Ok <==> ed25519_key_valid(public@),
        forall|secret: Seq<u8>|
            (secret.len() == 32 && public@ == (#[trigger] ed25519_public(secret))@) ==> r is Ok,
{
    ed25519_dalek::VerifyingKey::from_bytes(public).map(|_key| ())
}

/// `VerifyingKey::from_bytes(public)` then `Verifier::verify` with
/// `Signature::from_bytes(signature)`. Claimed: it succeeds exactly when the
/// key is accepted and the named check holds, and always for a signature that
/// the matching secret key made of `message`.
#[verifier::external_body]
fn verify_signature(
    public: &[u8; 32],
    message: &[u8],
    signature: &[u8; 64],
) -> (r: Result<(), ed25519_dalek::SignatureError>)
    ensures
        r is Ok <==> (ed25519_key_valid(public@) && ed25519_accepts(public@, message@, signature@)),
        forall|secret: Seq<u8>|
            (secret.len() == 32 && public@ == ed25519_public(secret)@ && signature@ == (
            #[trigger] ed25519_sign(secret, message@))@) ==> r is Ok,
{
    match ed25519_dalek::VerifyingKey::from_bytes(public) {
        Ok(key) => key.verify(message, &ed25519_dalek::Signature::from_bytes(signature)),
        Err(error) => Err(error),
    }
}

/// `Sha256::digest`. Claimed: the named digest.
#[verifier::external_body]
fn sha256_of(bytes: &[u8]) -> (digest: [u8; 32])
    ensures
        digest == sha256(bytes@),
{
    sha2::Sha256::digest(bytes).into()
}

/// `SigningKey::generate` from the operating system's random source; nothing
/// is claimed of the key it draws.
#[verifier::external_body]
fn generate_secret_key() -> [u8; 32] {
    ed25519_dalek::SigningKey::generate(&mut rand_core::OsRng).to_bytes()
}

/// The `Display` text of an `ed25519_dalek::SignatureError`; nothing is claimed of it.
#[verifier::external_body]
fn signature_error_text(error: &ed25519_dalek::SignatureError) -> String {
    format!("{error}")
}

/// The `Display` text of a `serde_json::Error`; nothing is claimed of it.
#[verifier::external_body]
fn json_error_text(error: &serde_json::Error) -> String {
    format!("{error}")
}

/// `serde_json::from_slice::<Value>(text)`, read with `Value::get(key)` and
/// `Value::as_str`. Claimed: the named result, and that a protected header as
/// written by [`header_to_json`] reads back its embedded key under `"jwk"`.
#[verifier::external_body]
fn json_string_field(text: &[u8], key: &str) -> (r: Result<Option<String>, serde_json::Error>)
    ensures
        match r {
            Ok(field) => json_str_field(text@, key@) == Some(opt_view(field)),
            Err(_) => json_str_field(text@, key@) is None,
        },
        (forall|kid: Seq<char>, jwk: Seq<char>|
            (text@ == #[trigger] encode_utf8(header_json(kid, jwk)) && key@ == "jwk"@) ==> json_field_read(r, jwk)),
{
    match serde_json::from_slice::<serde_json::Value>(text) {
        Ok(value) => Ok(value.get(key).and_then(serde_json::Value::as_str).map(str::to_owned)),
        Err(error) => Err(error),
    }
}

/// `r` is a successful read of the string `s`.
pub open spec fn json_field_read(r: Result<Option<String>, serde_json::Error>, s: Seq<char>) -> bool {
    r matches Ok(Some(t)) && t@ == s
}

/// Key fingerprint: lowercase hex of the first 12 bytes of the SHA-256 of the
/// public key.
pub open spec fn fingerprint_of(public: Seq<u8>) -> Seq<char> {
    hex_of(sha256(public)@.subrange(0, 12))
}

/// The device id a key stands for.
pub open spec fn device_id_of(fingerprint: Seq<char>) -> Seq<char> {
    "native-"@ + fingerprint
}

/// The fingerprint a SHA-256 `digest` gives: hex of its first 12 bytes.
pub fn fingerprint_of_digest(digest: &[u8; 32]) -> (s: String)
    ensures
        s@ == hex_of(digest@.subrange(0, 12)),
        s@.len() == 24,
{
    let all = digest.as_slice();
    let head = &all[0..12];
    assert(head@ == digest@.subrange(0, 12));
    to_hex(head)
}

/// The fingerprint of `public`.
pub fn fingerprint_public_key(public: &[u8; 32]) -> (s: String)
    ensures
        s@ == fingerprint_of(public@),
        s@.len() == 24,
{
    let digest = sha256_of(public.as_slice());
    fingerprint_of_digest(&digest)
}

/// This device's signing identity.
pub struct NativeIdentity {
    secret_key: [u8; 32],
    keychain_backed: bool,
    public_key_fingerprint: String,
}

pub struct IdentityView {
    pub secret: Seq<u8>,
    pub keychain_backed: bool,
}

impl View for NativeIdentity {
    type V = IdentityView;

    closed spec fn view(&self) -> IdentityView {
        IdentityView { secret: self.secret_key@, keychain_backed: self.keychain_backed }
    }
}

/// The fingerprint of the identity's public key.
pub open spec fn identity_fingerprint(id: IdentityView) -> Seq<char> {
    fingerprint_of(ed25519_public(id.secret)@)
}

impl NativeIdentity {
    #[verifier::type_invariant]
    spec fn fingerprint_matches(self) -> bool {
        self.public_key_fingerprint@ == fingerprint_of(ed25519_public(self.secret_key@)@)
    }

    /// Whether the key lives in the OS keychain.
    pub fn keychain_backed(&self) -> (b: bool)
        ensures
            b == self@.keychain_backed,
    {
        self.keychain_backed
    }

    /// The fingerprint of the public key.
    pub fn public_key_fingerprint(&self) -> (s: String)
        ensures
            s@ == identity_fingerprint(self@),
    {
        proof {
            use_type_invariant(self);
        }
        self.public_key_fingerprint.clone()
    }

    /// The device id this identity signs as: `native-<fingerprint>`.
    pub fn device_id(&self) -> (s: String)
        ensures
            s@ == device_id_of(identity_fingerprint(self@)),
    {
        proof {
            use_type_invariant(self);
        }
        let mut s = "native-".to_owned();
        push_str(&mut s, self.public_key_fingerprint.as_str());
        s
    }
}

/// The identity of `signing_key`, whose public key is fingerprinted.
pub fn identity_from_signing_key(signing_key: [u8; 32], keychain_backed: bool) -> (id:
    NativeIdentity)
    ensures
        id@ == (IdentityView { secret: signing_key@, keychain_backed }),
{
    let public = public_key_of(&signing_key);
    let fingerprint = fingerprint_public_key(&public);
    NativeIdentity { secret_key: signing_key, keychain_backed, public_key_fingerprint: fingerprint }
}

/// The 32-byte key a keychain entry holds, if it is base64url of exactly 32 bytes.
pub fn decode_signing_key(encoded: &str) -> (r: Option<[u8; 32]>)
    ensures
        match b64url_decode(encoded@) {
            Some(bytes) => if bytes.len() == 32 {
                r matches Some(k) && k@ == bytes
            } else {
                r is None
            },
            None => r is None,
        },
{
    match b64url_decode_text(encoded) {
        Ok(bytes) => {
            if bytes.len() != 32 {
                return None;
            }
            Some(bytes32(&bytes))
        },
        Err(_) => None,
    }
}

fn bytes32(v: &Vec<u8>) -> (a: [u8; 32])
    requires
        v@.len() == 32,
    ensures
        a@ == v@,
{
    let mut a = [0u8; 32];
    let mut i: usize = 0;
    while i < 32
        invariant
            i <= 32,
            v@.len() == 32,
            forall|k: int| 0 <= k < i ==> a@[k] == v@[k],
        decreases 32 - i,
    {
        a[i] = v[i];
        i = i + 1;
    }
    assert(a@ =~= v@);
    a
}

fn bytes64(v: &Vec<u8>) -> (a: [u8; 64])
    requires
        v@.len() == 64,
    ensures
        a@ == v@,
{
    let mut a = [0u8; 64];
    let mut i: usize = 0;
    while i < 64
        invariant
            i <= 64,
            v@.len() == 64,
            forall|k: int| 0 <= k < i ==> a@[k] == v@[k],
        decreases 64 - i,
    {
        a[i] = v[i];
        i = i + 1;
    }
    assert(a@ =~= v@);
    a
}

pub open spec fn in_memory_key_warning() -> Seq<char> {
    "Using an in-memory device signing key because OS keychain storage is unavailable."@
}

/// The identity of the key found in the keychain or, when there is none, of a
/// freshly generated in-memory key (with a warning).
pub fn load_or_create_identity(stored: Option<[u8; 32]>, warnings: &mut Vec<String>) -> (id:
    NativeIdentity)
    ensures
        match stored {
            Some(k) => id@ == (IdentityView { secret: k@, keychain_backed: true })
                && final(warnings)@ == old(warnings)@,
            None => !id@.keychain_backed && strings_view(final(warnings)@) == with_warning(
                strings_view(old(warnings)@),
                in_memory_key_warning(),
            ),
        },
{
    match stored {
        Some(key) => identity_from_signing_key(key, true),
        None => {
            let key = generate_secret_key();
            push_warning_once(
                warnings,
                "Using an in-memory device signing key because OS keychain storage is unavailable.".to_owned(),
            );
            identity_from_signing_key(key, false)
        },
    }
}

/// The bytes a compact JWS signs: `<protected>.<payload>`.
pub open spec fn signing_input(protected: Seq<char>, payload: Seq<char>) -> Seq<u8> {
    encode_utf8(protected + "."@ + payload)
}

/// The envelope `secret` seals `entry` in: a protected header naming the key
/// (`kid`, the fingerprint) and embedding it (`jwk`), the entry's JSON as the
/// payload, and the Ed25519 signature over both, each in base64url.
pub open spec fn sealed_envelope(secret: Seq<u8>, entry: EntryView) -> EnvelopeView {
    let public = ed25519_public(secret)@;
    let protected = b64url_encode(
        encode_utf8(header_json(fingerprint_of(public), b64url_encode(public))),
    );
    let payload = b64url_encode(encode_utf8(entry_json(entry)));
    EnvelopeView {
        protected,
        payload,
        signature: b64url_encode(ed25519_sign(secret, signing_input(protected, payload))@),
    }
}

/// The bytes a compact JWS signs for these parts (see [`signing_input`]).
pub fn signing_input_of(protected: &str, payload: &str) -> (v: Vec<u8>)
    ensures
        v@ == signing_input(protected@, payload@),
{
    let mut input = protected.to_owned();
    push_char(&mut input, '.');
    push_str(&mut input, payload);
    assert(input@ =~= protected@ + "."@ + payload@) by {
        reveal_strlit(".");
    }
    str_bytes(input.as_str())
}

proof fn lemma_hex_plain(bytes: Seq<u8>)
    ensures
        is_plain(hex_of(bytes)),
        hex_of(bytes).len() == 2 * bytes.len(),
    decreases bytes.len(),
{
    if bytes.len() > 0 {
        lemma_hex_plain(bytes.drop_last());
        let h = hex_of(bytes);
        let t = hex_of(bytes.drop_last());
        let (a, b) = (bytes.last() / 16, bytes.last() % 16);
        assert(h == t + seq![hex_digit(a), hex_digit(b)]);
        assert forall|i: int| 0 <= i < h.len() implies {
            &&& 0x20 <= (#[trigger] h[i]) as u32
            &&& (h[i] as u32) < 0x7f
            &&& h[i] != '"'
            &&& h[i] != '\\'
        } by {
            if i < t.len() {
                assert(h[i] == t[i]);
            }
        }
    }
}

/// The protected header of a key is a few dozen bytes long.
proof fn lemma_header_small(kid: Seq<char>, jwk: Seq<char>)
    requires
        is_plain(kid),
        is_plain(jwk),
        kid.len() <= 64,
        jwk.len() <= 64,
    ensures
        utf8_len(header_json(kid, jwk)) <= 1024,
{
    lemma_escape_plain(kid);
    lemma_escape_plain(jwk);
    reveal_strlit("{\"alg\":\"EdDSA\",\"jwk\":");
    reveal_strlit(",\"kid\":");
    reveal_strlit(",\"typ\":\"calc-event+jws\"}");
    assert(json_string(kid).len() == kid.len() + 2);
    assert(json_string(jwk).len() == jwk.len() + 2);
    lemma_utf8_len_bound(header_json(kid, jwk));
}

/// Seal `entry` with the identity's key (see [`sealed_envelope`]).
pub fn sign_calculation_event(identity: &NativeIdentity, entry: &CalculationEntry) -> (r: Result<
    SignedEnvelope,
    String,
>)
    requires
        utf8_len(entry_json(entry@)) <= usize::MAX / 2,
    ensures
        r matches Ok(envelope) && envelope@ == sealed_envelope(identity@.secret, entry@),
{
    proof {
        use_type_invariant(identity);
    }
    let public = public_key_of(&identity.secret_key);
    let jwk = b64url_encode_bytes(public.as_slice());
    let header = header_to_json(identity.public_key_fingerprint.as_str(), jwk.as_str());
    proof {
        lemma_hex_plain(sha256(public@)@.subrange(0, 12));
        lemma_b64_plain(jwk@);
        lemma_header_small(identity.public_key_fingerprint@, jwk@);
        lemma_encode_len(header@);
        lemma_encode_len(entry_json(entry@));
    }
    let header_bytes = str_bytes(header.as_str());
    let protected = b64url_encode_bytes(header_bytes.as_slice());
    let entry_text = entry_to_json(entry);
    let entry_bytes = str_bytes(entry_text.as_str());
    let payload = b64url_encode_bytes(entry_bytes.as_slice());
    let input = signing_input_of(protected.as_str(), payload.as_str());
    let signature = sign_bytes(&identity.secret_key, input.as_slice());
    let signature_text = b64url_encode_bytes(signature.as_slice());
    Ok(SignedEnvelope { protected, payload, signature: signature_text })
}

/// Why a signed envelope does not open.
pub enum EnvelopeFault {
    ProtectedEncoding,
    ProtectedHeader,
    MissingKey,
    KeyEncoding,
    KeyLength,
    KeyInvalid,
    SignatureEncoding,
    SignatureLength,
    SignatureRejected,
    PayloadEncoding,
}

/// The signature check and payload decoding shared by local and received
/// envelopes, with `public` as the signer's key: the decoded payload bytes.
pub open spec fn checked_payload(public: Seq<u8>, env: EnvelopeView) -> Result<
    Seq<u8>,
    EnvelopeFault,
> {
    match b64url_decode(env.signature) {
        None => Err(EnvelopeFault::SignatureEncoding),
        Some(sig) => if sig.len() != 64 {
            Err(EnvelopeFault::SignatureLength)
        } else if !(ed25519_key_valid(public) && ed25519_accepts(
            public,
            signing_input(env.protected, env.payload),
            sig,
        )) {
            Err(EnvelopeFault::SignatureRejected)
        } else {
            match b64url_decode(env.payload) {
                None => Err(EnvelopeFault::PayloadEncoding),
                Some(payload) => Ok(payload),
            }
        },
    }
}

/// Opening an envelope received from a peer: the key embedded in the header
/// (`jwk`) must be a valid Ed25519 key that signed the envelope. Gives the
/// payload bytes and the device id of that key.
pub open spec fn opened_received(env: EnvelopeView) -> Result<(Seq<u8>, Seq<char>), EnvelopeFault> {
    match b64url_decode(env.protected) {
        None => Err(EnvelopeFault::ProtectedEncoding),
        Some(header) => match json_str_field(header, "jwk"@) {
            None => Err(EnvelopeFault::ProtectedHeader),
            Some(None) => Err(EnvelopeFault::MissingKey),
            Some(Some(jwk)) => match b64url_decode(jwk) {
                None => Err(EnvelopeFault::KeyEncoding),
                Some(key) => if key.len() != 32 {
                    Err(EnvelopeFault::KeyLength)
                } else if !ed25519_key_valid(key) {
                    Err(EnvelopeFault::KeyInvalid)
                } else {
                    match checked_payload(key, env) {
                        Err(f) => Err(f),
                        Ok(payload) => Ok((payload, device_id_of(fingerprint_of(key)))),
                    }
                },
            },
        },
    }
}

/// Whether `f` is reported with the underlying error's text appended.
pub open spec fn fault_has_detail(f: EnvelopeFault) -> bool {
    !(f is MissingKey || f is KeyLength || f is SignatureLength)
}

/// The message for `f` on a received envelope (its prefix when detailed).
pub open spec fn received_fault_text(f: EnvelopeFault) -> Seq<char> {
    match f {
        EnvelopeFault::ProtectedEncoding => "Invalid protected header encoding: "@,
        EnvelopeFault::ProtectedHeader => "Invalid protected header: "@,
        EnvelopeFault::MissingKey => "Received event is missing the embedded public key"@,
        EnvelopeFault::KeyEncoding => "Invalid embedded public key encoding: "@,
        EnvelopeFault::KeyLength => "Invalid embedded public key length"@,
        EnvelopeFault::KeyInvalid => "Invalid embedded public key: "@,
        EnvelopeFault::SignatureEncoding => "Invalid received signature encoding: "@,
        EnvelopeFault::SignatureLength => "Invalid received signature length"@,
        EnvelopeFault::SignatureRejected => "Received event signature verification failed: "@,
        EnvelopeFault::PayloadEncoding => "Invalid received payload encoding: "@,
    }
}

/// The message for `f` on this device's own envelope (its prefix when detailed).
pub open spec fn local_fault_text(f: EnvelopeFault) -> Seq<char> {
    match f {
        EnvelopeFault::SignatureEncoding => "Invalid calculation JWS signature encoding: "@,
        EnvelopeFault::SignatureLength => "Invalid calculation JWS signature length"@,
        EnvelopeFault::SignatureRejected => "Calculation JWS verification failed: "@,
        _ => "Invalid calculation JWS payload encoding: "@,
    }
}

/// `m` reports `text`: is it, or begins with it when a detail follows.
pub open spec fn reports(text: Seq<char>, detailed: bool, m: Seq<char>) -> bool {
    if detailed {
        text.len() <= m.len() && m.subrange(0, text.len() as int) == text
    } else {
        m == text
    }
}

fn with_detail(prefix: &str, detail: String) -> (m: String)
    ensures
        reports(prefix@, true, m@),
        m@ == prefix@ + detail@,
{
    let mut m = prefix.to_owned();
    push_str(&mut m, detail.as_str());
    assert(m@.subrange(0, prefix@.len() as int) =~= prefix@);
    m
}

/// A received envelope, opened: its payload and the device id of its signer.
#[derive(Debug)]
pub struct OpenedEvent {
    pub payload: Vec<u8>,
    pub signer_device_id: String,
}

pub open spec fn payload_of(r: Result<Vec<u8>, (EnvelopeFault, String)>, payload: Seq<u8>) -> bool {
    r matches Ok(v) && v@ == payload
}

fn signature_and_payload(public: &[u8; 32], envelope: &SignedEnvelope) -> (r: Result<
    Vec<u8>,
    (EnvelopeFault, String),
>)
    ensures
        match checked_payload(public@, envelope@) {
            Ok(p) => r matches Ok(v) && v@ == p,
            Err(f) => r matches Err(e) && e.0 == f,
        },
        forall|secret: Seq<u8>, entry: EntryView|
            (secret.len() == 32 && public@ == ed25519_public(secret)@ && envelope@ == #[trigger] sealed_envelope(secret, entry))
                ==> payload_of(r, encode_utf8(entry_json(entry))),
{
    let signature = match b64url_decode_text(envelope.signature.as_str()) {
        Ok(bytes) => bytes,
        Err(error) => {
            return Err((EnvelopeFault::SignatureEncoding, decode_error_text(&error)));
        },
    };
    if signature.len() != 64 {
        return Err((EnvelopeFault::SignatureLength, String::new()));
    }
    let signature = bytes64(&signature);
    let input = signing_input_of(envelope.protected.as_str(), envelope.payload.as_str());
    match verify_signature(public, input.as_slice(), &signature) {
        Ok(()) => {},
        Err(error) => {
            return Err((EnvelopeFault::SignatureRejected, signature_error_text(&error)));
        },
    }
    match b64url_decode_text(envelope.payload.as_str()) {
        Ok(bytes) => Ok(bytes),
        Err(error) => Err((EnvelopeFault::PayloadEncoding, decode_error_text(&error))),
    }
}

fn local_fault_message(fault: EnvelopeFault, detail: String) -> (m: String)
    requires
        fault is SignatureEncoding || fault is SignatureLength || fault is SignatureRejected
            || fault is PayloadEncoding,
    ensures
        reports(local_fault_text(fault), fault_has_detail(fault), m@),
{
    match fault {
        EnvelopeFault::SignatureEncoding => with_detail(
            "Invalid calculation JWS signature encoding: ",
            detail,
        ),
        EnvelopeFault::SignatureLength => "Invalid calculation JWS signature length".to_owned(),
        EnvelopeFault::SignatureRejected => with_detail("Calculation JWS verification failed: ", detail),
        _ => with_detail("Invalid calculation JWS payload encoding: ", detail),
    }
}

/// Check an envelope this device signed: its signature must verify under the
/// identity's own key. Gives the payload bytes. An envelope the identity
/// sealed always passes, and gives back the JSON of the entry it sealed.
pub fn check_local_envelope(identity: &NativeIdentity, envelope: &SignedEnvelope) -> (r: Result<
    Vec<u8>,
    String,
>)
    ensures
        match checked_payload(ed25519_public(identity@.secret)@, envelope@) {
            Ok(p) => r matches Ok(v) && v@ == p,
            Err(f) => r matches Err(m) && reports(local_fault_text(f), fault_has_detail(f), m@),
        },
        forall|entry: EntryView|
            envelope@ == #[trigger] sealed_envelope(identity@.secret, entry) ==> (r matches Ok(v)
                && v@ == encode_utf8(entry_json(entry))),
{
    let public = public_key_of(&identity.secret_key);
    match signature_and_payload(&public, envelope) {
        Ok(bytes) => Ok(bytes),
        Err((fault, detail)) => Err(local_fault_message(fault, detail)),
    }
}

pub open spec fn holder_binding_failure() -> Seq<char> {
    "Calculation event failed holder key binding"@
}

pub open spec fn local_validation_reason() -> Seq<char> {
    "Local calculation event signature and holder binding verified"@
}

/// The outcome of validating this device's own event once its payload is
/// parsed (`parsed`, or the parser's error): valid exactly when the entry
/// names this identity's device as its origin.
pub fn validate_local_entry(identity: &NativeIdentity, parsed: Result<CalculationEntry, String>) -> (r:
    Result<ValidationSummary, String>)
    ensures
        match parsed {
            Err(e) => r matches Err(m) && m@ == "Invalid calculation JWS payload: "@ + e@,
            Ok(entry) => if entry@.origin_device_id == device_id_of(identity_fingerprint(identity@)) {
                r matches Ok(summary) && summary@ == local_event_summary(local_validation_reason())
            } else {
                r matches Err(m) && m@ == holder_binding_failure()
            },
        },
{
    match parsed {
        Err(e) => Err(with_detail("Invalid calculation JWS payload: ", e)),
        Ok(entry) => {
            let expected = identity.device_id();
            if crate::text::str_eq(entry.origin_device_id.as_str(), expected.as_str()) {
                Ok(
                    ValidationSummary::local_event_valid(
                        "Local calculation event signature and holder binding verified".to_owned(),
                    ),
                )
            } else {
                Err("Calculation event failed holder key binding".to_owned())
            }
        },
    }
}

fn received_fault_message(fault: EnvelopeFault, detail: String) -> (m: String)
    ensures
        reports(received_fault_text(fault), fault_has_detail(fault), m@),
{
    match fault {
        EnvelopeFault::ProtectedEncoding => with_detail("Invalid protected header encoding: ", detail),
        EnvelopeFault::ProtectedHeader => with_detail("Invalid protected header: ", detail),
        EnvelopeFault::MissingKey => "Received event is missing the embedded public key".to_owned(),
        EnvelopeFault::KeyEncoding => with_detail("Invalid embedded public key encoding: ", detail),
        EnvelopeFault::KeyLength => "Invalid embedded public key length".to_owned(),
        EnvelopeFault::KeyInvalid => with_detail("Invalid embedded public key: ", detail),
        EnvelopeFault::SignatureEncoding => with_detail(
            "Invalid received signature encoding: ",
            detail,
        ),
        EnvelopeFault::SignatureLength => "Invalid received signature length".to_owned(),
        EnvelopeFault::SignatureRejected => with_detail(
            "Received event signature verification failed: ",
            detail,
        ),
        EnvelopeFault::PayloadEncoding => with_detail("Invalid received payload encoding: ", detail),
    }
}

pub open spec fn opened_as(r: Result<OpenedEvent, (EnvelopeFault, String)>, o: (Seq<u8>, Seq<char>)) -> bool {
    r matches Ok(v) && v.payload@ == o.0 && v.signer_device_id@ == o.1
}

fn open_steps(envelope: &SignedEnvelope) -> (r: Result<OpenedEvent, (EnvelopeFault, String)>)
    ensures
        match opened_received(envelope@) {
            Ok(o) => opened_as(r, o),
            Err(f) => r matches Err(e) && e.0 == f,
        },
        forall|secret: Seq<u8>, entry: EntryView|
            (secret.len() == 32 && envelope@ == #[trigger] sealed_envelope(secret, entry))
                ==> opened_received(envelope@) == Ok::<(Seq<u8>, Seq<char>), EnvelopeFault>(
                (encode_utf8(entry_json(entry)), device_id_of(fingerprint_of(ed25519_public(secret)@))),
            ),
{
    let header = match b64url_decode_text(envelope.protected.as_str()) {
        Ok(bytes) => bytes,
        Err(error) => {
            return Err((EnvelopeFault::ProtectedEncoding, decode_error_text(&error)));
        },
    };
    let jwk = match json_string_field(header.as_slice(), "jwk") {
        Ok(Some(jwk)) => jwk,
        Ok(None) => {
            return Err((EnvelopeFault::MissingKey, String::new()));
        },
        Err(error) => {
            return Err((EnvelopeFault::ProtectedHeader, json_error_text(&error)));
        },
    };
    let key = match b64url_decode_text(jwk.as_str()) {
        Ok(bytes) => bytes,
        Err(error) => {
            return Err((EnvelopeFault::KeyEncoding, decode_error_text(&error)));
        },
    };
    if key.len() != 32 {
        return Err((EnvelopeFault::KeyLength, String::new()));
    }
    let key = bytes32(&key);
    match check_public_key(&key) {
        Ok(()) => {},
        Err(error) => {
            return Err((EnvelopeFault::KeyInvalid, signature_error_text(&error)));
        },
    }
    let payload = match signature_and_payload(&key, envelope) {
        Ok(bytes) => bytes,
        Err(e) => {
            return Err(e);
        },
    };
    let fingerprint = fingerprint_public_key(&key);
    let mut signer = "native-".to_owned();
    push_str(&mut signer, fingerprint.as_str());
    Ok(OpenedEvent { payload, signer_device_id: signer })
}

/// Open an envelope received from a peer (see [`opened_received`]): the
/// payload bytes and the device id of the key that signed it. An envelope
/// sealed by any key opens to the JSON of the entry sealed and that key's
/// device id.
pub fn open_received_envelope(envelope: &SignedEnvelope) -> (r: Result<OpenedEvent, String>)
    ensures
        match opened_received(envelope@) {
            Ok(o) => r matches Ok(v) && v.payload@ == o.0 && v.signer_device_id@ == o.1,
            Err(f) => r matches Err(m) && reports(received_fault_text(f), fault_has_detail(f), m@),
        },
        forall|secret: Seq<u8>, entry: EntryView|
            (secret.len() == 32 && envelope@ == #[trigger] sealed_envelope(secret, entry))
                ==> opened_received(envelope@) == Ok::<(Seq<u8>, Seq<char>), EnvelopeFault>(
                (encode_utf8(entry_json(entry)), device_id_of(fingerprint_of(ed25519_public(secret)@))),
            ),
{
    match open_steps(envelope) {
        Ok(opened) => Ok(opened),
        Err((fault, detail)) => Err(received_fault_message(fault, detail)),
    }
}

/// Accept a received entry (`parsed`, or the parser's error) only when it
/// names the envelope's signer as its origin device.
pub fn bind_received_entry(parsed: Result<CalculationEntry, String>, signer_device_id: &str) -> (r:
    Result<CalculationEntry, String>)
    ensures
        match parsed {
            Err(e) => r matches Err(m) && m@ == "Invalid received payload: "@ + e@,
            Ok(entry) => if entry@.origin_device_id == signer_device_id@ {
                r matches Ok(x) && x@ == entry@
            } else {
                r matches Err(m) && m@ == "Received event failed holder key binding"@
            },
        },
{
    match parsed {
        Err(e) => Err(with_detail("Invalid received payload: ", e)),
        Ok(entry) => {
            if crate::text::str_eq(entry.origin_device_id.as_str(), signer_device_id) {
                Ok(entry)
            } else {
                Err("Received event failed holder key binding".to_owned())
            }
        },
    }
}

} // verus!
