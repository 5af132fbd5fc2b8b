//! Calculation events, the signed envelope they travel in, and the JSON text
//! of each (camelCase field names, compact, as serde_json writes them).
use vstd::prelude::*;
use crate::json::{json_bool, json_string, push_bool, push_json_string};
use crate::text::push_str;
use crate::utf8::str_bytes;

verus! {

/// One calculation in the shared history.
#[derive(Debug)]
pub struct CalculationEntry {
    pub id: String,
    pub origin_device_id: String,
    pub expression: String,
    pub result: String,
    pub trusted: bool,
    pub created_at_iso: String,
}

pub struct EntryView {
    pub id: Seq<char>,
    pub origin_device_id: Seq<char>,
    pub expression: Seq<char>,
    pub result: Seq<char>,
    pub trusted: bool,
    pub created_at_iso: Seq<char>,
}

impl View for CalculationEntry {
    type V = EntryView;

    open spec fn view(&self) -> EntryView {
        EntryView {
            id: self.id@,
            origin_device_id: self.origin_device_id@,
            expression: self.expression@,
            result: self.result@,
            trusted: self.trusted,
            created_at_iso: self.created_at_iso@,
        }
    }
}

impl CalculationEntry {
    pub fn duplicate(&self) -> (r: Self)
        ensures
            r@ == self@,
    {
        CalculationEntry {
            id: self.id.clone(),
            origin_device_id: self.origin_device_id.clone(),
            expression: self.expression.clone(),
            result: self.result.clone(),
            trusted: self.trusted,
            created_at_iso: self.created_at_iso.clone(),
        }
    }
}

/// A compact JWS: base64url protected header, payload and signature.
#[derive(Debug)]
pub struct SignedEnvelope {
    pub protected: String,
    pub payload: String,
    pub signature: String,
}

pub struct EnvelopeView {
    pub protected: Seq<char>,
    pub payload: Seq<char>,
    pub signature: Seq<char>,
}

impl View for SignedEnvelope {
    type V = EnvelopeView;

    open spec fn view(&self) -> EnvelopeView {
        EnvelopeView {
            protected: self.protected@,
            payload: self.payload@,
            signature: self.signature@,
        }
    }
}

/// The signed payload: the entry as a JSON object with its keys in sorted
/// order (the event passes through a `serde_json::Value`, whose map is ordered),
/// `{"createdAtIso":..,"expression":..,"id":..,"originDeviceId":..,"result":..,"trusted":..}`.
pub open spec fn entry_json(e: EntryView) -> Seq<char> {
    "{\"createdAtIso\":"@ + json_string(e.created_at_iso) + ",\"expression\":"@ + json_string(
        e.expression,
    ) + ",\"id\":"@ + json_string(e.id) + ",\"originDeviceId\":"@ + json_string(
        e.origin_device_id,
    ) + ",\"result\":"@ + json_string(e.result) + ",\"trusted\":"@ + json_bool(e.trusted)
        + "}"@
}

/// `{"protected":..,"payload":..,"signature":..}`
pub open spec fn envelope_json(e: EnvelopeView) -> Seq<char> {
    "{\"protected\":"@ + json_string(e.protected) + ",\"payload\":"@ + json_string(e.payload)
        + ",\"signature\":"@ + json_string(e.signature) + "}"@
}

/// The protected JWS header, keys in sorted order:
/// `{"alg":"EdDSA","jwk":..,"kid":..,"typ":"calc-event+jws"}`.
pub open spec fn header_json(kid: Seq<char>, jwk: Seq<char>) -> Seq<char> {
    "{\"alg\":\"EdDSA\",\"jwk\":"@ + json_string(jwk) + ",\"kid\":"@ + json_string(kid)
        + ",\"typ\":\"calc-event+jws\"}"@
}

/// The JSON text of a calculation event as it is signed.
pub fn entry_to_json(e: &CalculationEntry) -> (s: String)
    ensures
        s@ == entry_json(e@),
{
    let mut s = "{\"createdAtIso\":".to_owned();
    push_json_string(&mut s, e.created_at_iso.as_str());
    push_str(&mut s, ",\"expression\":");
    push_json_string(&mut s, e.expression.as_str());
    push_str(&mut s, ",\"id\":");
    push_json_string(&mut s, e.id.as_str());
    push_str(&mut s, ",\"originDeviceId\":");
    push_json_string(&mut s, e.origin_device_id.as_str());
    push_str(&mut s, ",\"result\":");
    push_json_string(&mut s, e.result.as_str());
    push_str(&mut s, ",\"trusted\":");
    push_bool(&mut s, e.trusted);
    push_str(&mut s, "}");
    assert(s@ =~= entry_json(e@));
    s
}

/// The JSON text of a signed envelope.
pub fn envelope_to_json(e: &SignedEnvelope) -> (s: String)
    ensures
        s@ == envelope_json(e@),
{
    let mut s = "{\"protected\":".to_owned();
    push_json_string(&mut s, e.protected.as_str());
    push_str(&mut s, ",\"payload\":");
    push_json_string(&mut s, e.payload.as_str());
    push_str(&mut s, ",\"signature\":");
    push_json_string(&mut s, e.signature.as_str());
    push_str(&mut s, "}");
    assert(s@ =~= envelope_json(e@));
    s
}

/// The JSON text of the protected header for key id `kid` and embedded
/// public key `jwk`.
pub fn header_to_json(kid: &str, jwk: &str) -> (s: String)
    ensures
        s@ == header_json(kid@, jwk@),
{
    let mut s = "{\"alg\":\"EdDSA\",\"jwk\":".to_owned();
    push_json_string(&mut s, jwk);
    push_str(&mut s, ",\"kid\":");
    push_json_string(&mut s, kid);
    push_str(&mut s, ",\"typ\":\"calc-event+jws\"}");
    assert(s@ =~= header_json(kid@, jwk@));
    s
}

/// The UTF-8 bytes of a signed envelope's JSON text.
pub fn envelope_bytes(e: &SignedEnvelope) -> (v: Vec<u8>)
    ensures
        v@ == vstd::utf8::encode_utf8(envelope_json(e@)),
{
    let s = envelope_to_json(e);
    str_bytes(s.as_str())
}

} // verus!
