//! Framing a signed event for BLE: serialize the envelope, chunk it to fit a
//! frame budget, and write each chunk as one JSON frame.
use vstd::prelude::*;
use vstd::utf8::encode_utf8;
use crate::encoding::{b64_len, is_b64url_char};
use crate::event::{envelope_bytes, envelope_json, SignedEnvelope};
use crate::json::{
    decimal, is_ascii_seq, is_plain, json_string, lemma_ascii_len, lemma_b64_plain, lemma_decimal,
    lemma_plain_len, push_decimal, push_json_string,
};
use crate::text::push_str;
use crate::transport::{
    chunk_count, chunk_payload_size_for_frame_budget, chunk_payload_sized, chunk_set, chunks_view,
    lemma_chunks_reassemble, lemma_piece_len, payload_size_for_budget, piece, reassemble,
    BleTransportChunk, ChunkView, ReassemblyFailure, MAX_CHUNKS,
    BLE_CHUNK_FRAME_OVERHEAD_BYTES,
};
use crate::utf8::{lemma_encode_len, str_bytes, utf8_len};

verus! {

/// `{"messageId":..,"index":..,"total":..,"payloadB64":..}`
pub open spec fn chunk_json(c: ChunkView) -> Seq<char> {
    "{\"messageId\":"@ + json_string(c.message_id) + ",\"index\":"@ + decimal(c.index as nat)
        + ",\"total\":"@ + decimal(c.total as nat) + ",\"payloadB64\":"@ + json_string(
        c.payload_b64,
    ) + "}"@
}

/// The bytes of each chunk's frame.
pub open spec fn frames_of(chunks: Seq<ChunkView>) -> Seq<Seq<u8>> {
    chunks.map_values(|c: ChunkView| encode_utf8(chunk_json(c)))
}

pub open spec fn frames_view(frames: Seq<Vec<u8>>) -> Seq<Seq<u8>> {
    frames.map_values(|f: Vec<u8>| f@)
}

/// Position of the first frame longer than `budget`.
pub open spec fn first_oversized(frames: Seq<Seq<u8>>, budget: nat) -> Option<int>
    decreases frames.len(),
{
    if frames.len() == 0 {
        None
    } else if frames[0].len() > budget {
        Some(0)
    } else {
        match first_oversized(frames.drop_first(), budget) {
            Some(k) => Some(k + 1),
            None => None,
        }
    }
}

pub open spec fn too_small_message(budget: nat) -> Seq<char> {
    "BLE frame budget of "@ + decimal(budget) + " bytes is too small to carry chunked events"@
}

pub open spec fn oversized_message(len: nat, budget: nat) -> Seq<char> {
    "Framed BLE chunk is "@ + decimal(len) + " bytes, exceeding the "@ + decimal(budget)
        + "-byte transport budget"@
}

/// What framing an envelope for a given budget yields: the frames of the
/// chunked envelope JSON, unless the budget cannot carry a payload byte or
/// some frame would exceed it.
pub open spec fn framed_event(
    id: Seq<char>,
    envelope_text: Seq<char>,
    budget: nat,
) -> Result<Seq<Seq<u8>>, Seq<char>> {
    match payload_size_for_budget(budget as int) {
        None => Err(too_small_message(budget)),
        Some(cs) => {
            let frames = frames_of(chunk_set(id, encode_utf8(envelope_text), cs as nat));
            match first_oversized(frames, budget) {
                Some(k) => Err(oversized_message(frames[k].len(), budget)),
                None => Ok(frames),
            }
        },
    }
}

/// `frames` are the frames of a chunk set for message `id` that reassembles
/// to `payload`.
pub open spec fn frames_carry(frames: Seq<Seq<u8>>, id: Seq<char>, payload: Seq<u8>) -> bool {
    exists|chunks: Seq<ChunkView>|
        #![trigger frames_of(chunks)]
        {
            &&& frames == frames_of(chunks)
            &&& chunks.len() > 0
            &&& forall|i: int| 0 <= i < chunks.len() ==> (#[trigger] chunks[i]).message_id == id
            &&& reassemble(chunks) == Ok::<Seq<u8>, ReassemblyFailure>(payload)
        }
}

/// A payload of `len` bytes fits in the chunk count a frame carries at
/// `budget` bytes a frame.
pub open spec fn fits_chunk_count(len: nat, budget: nat) -> bool {
    payload_size_for_budget(budget as int) matches Some(cs) && chunk_count(len, cs as nat)
        <= MAX_CHUNKS
}

/// The frame of one chunk.
pub fn frame_chunk(c: &BleTransportChunk) -> (f: Vec<u8>)
    ensures
        f@ == encode_utf8(chunk_json(c@)),
{
    let mut s = "{\"messageId\":".to_owned();
    push_json_string(&mut s, c.message_id.as_str());
    push_str(&mut s, ",\"index\":");
    push_decimal(&mut s, c.index as u64);
    push_str(&mut s, ",\"total\":");
    push_decimal(&mut s, c.total as u64);
    push_str(&mut s, ",\"payloadB64\":");
    push_json_string(&mut s, c.payload_b64.as_str());
    push_str(&mut s, "}");
    assert(s@ =~= chunk_json(c@));
    str_bytes(s.as_str())
}

/// Serialize `envelope`, chunk it to fit `frame_budget`, and frame each chunk
/// (see [`framed_event`]). A message id of at most 36 plain characters (a
/// UUID) never makes a frame overflow, so framing then fails only for a
/// budget too small to carry a payload byte.
#[verifier::loop_isolation(false)]
pub fn frame_event_for_ble(message_id: String, envelope: &SignedEnvelope, frame_budget: usize) -> (r:
    Result<Vec<Vec<u8>>, String>)
    requires
        utf8_len(envelope_json(envelope@)) <= usize::MAX / 2,
    ensures
        match framed_event(message_id@, envelope_json(envelope@), frame_budget as nat) {
            Ok(frames) => r matches Ok(v) && frames_view(v@) == frames,
            Err(e) => r matches Err(m) && m@ == e,
        },
        is_plain(message_id@) && message_id@.len() <= 36 ==> (r is Ok <==> payload_size_for_budget(
            frame_budget as int,
        ) is Some),
        fits_chunk_count(encode_utf8(envelope_json(envelope@)).len(), frame_budget as nat) ==> (r matches Ok(
            v,
        ) ==> frames_carry(frames_view(v@), message_id@, encode_utf8(envelope_json(envelope@)))),
{
    let chunk_size = match chunk_payload_size_for_frame_budget(frame_budget) {
        Some(n) => n,
        None => {
            let mut m = "BLE frame budget of ".to_owned();
            push_decimal(&mut m, frame_budget as u64);
            push_str(&mut m, " bytes is too small to carry chunked events");
            assert(m@ =~= too_small_message(frame_budget as nat));
            return Err(m);
        },
    };
    let payload_json = envelope_bytes(envelope);
    proof {
        lemma_encode_len(envelope_json(envelope@));
    }
    let ghost id = message_id@;
    let chunks = chunk_payload_sized(message_id, payload_json.as_slice(), chunk_size);
    let ghost cv = chunks_view(chunks@);
    let ghost spec_frames = frames_of(cv);
    let mut frames: Vec<Vec<u8>> = Vec::new();
    let mut k: usize = 0;
    while k < chunks.len()
        invariant
            k <= chunks@.len(),
            cv == chunks_view(chunks@),
            spec_frames == frames_of(cv),
            frames@.len() == k,
            forall|j: int| 0 <= j < k ==> (#[trigger] frames@[j])@ == spec_frames[j],
            forall|j: int| 0 <= j < k ==> (#[trigger] spec_frames[j]).len() <= frame_budget,
        decreases chunks.len() - k,
    {
        let f = frame_chunk(&chunks[k]);
        assert(f@ == spec_frames[k as int]);
        if f.len() > frame_budget {
            proof {
                lemma_first_oversized(spec_frames, frame_budget as nat, k as int);
                if is_plain(id) && id.len() <= 36 {
                    let c = cv[k as int];
                    lemma_piece_len(id, payload_json@, chunk_size as nat, k as nat);
                    lemma_frame_fits(
                        c,
                        frame_budget as nat,
                        chunk_size as nat,
                        piece(payload_json@, chunk_size as nat, k as nat).len(),
                    );
                    assert(false);
                }
            }
            let mut m = "Framed BLE chunk is ".to_owned();
            push_decimal(&mut m, f.len() as u64);
            push_str(&mut m, " bytes, exceeding the ");
            push_decimal(&mut m, frame_budget as u64);
            push_str(&mut m, "-byte transport budget");
            assert(m@ =~= oversized_message(f@.len(), frame_budget as nat));
            return Err(m);
        }
        frames.push(f);
        k = k + 1;
    }
    proof {
        lemma_first_oversized(spec_frames, frame_budget as nat, k as int);
        assert(frames_view(frames@) =~= spec_frames);
        if chunk_count(payload_json@.len(), chunk_size as nat) <= MAX_CHUNKS {
            lemma_chunks_reassemble(cv, id, payload_json@, chunk_size as nat);
            assert(forall|i: int| 0 <= i < cv.len() ==> (#[trigger] cv[i]).message_id == id);
            assert(cv.len() > 0);
        }
    }
    Ok(frames)
}

/// Framing never hands out a frame larger than the budget: when it succeeds,
/// every frame fits.
pub proof fn lemma_framed_frames_fit(id: Seq<char>, envelope_text: Seq<char>, budget: nat)
    ensures
        framed_event(id, envelope_text, budget) matches Ok(frames) ==> forall|i: int|
            0 <= i < frames.len() ==> (#[trigger] frames[i]).len() <= budget,
{
    if let Some(cs) = payload_size_for_budget(budget as int) {
        let frames = frames_of(chunk_set(id, encode_utf8(envelope_text), cs as nat));
        lemma_none_oversized(frames, budget);
    }
}

proof fn lemma_none_oversized(frames: Seq<Seq<u8>>, budget: nat)
    ensures
        first_oversized(frames, budget) is None ==> forall|i: int|
            0 <= i < frames.len() ==> (#[trigger] frames[i]).len() <= budget,
    decreases frames.len(),
{
    if frames.len() > 0 {
        let t = frames.drop_first();
        lemma_none_oversized(t, budget);
        if first_oversized(frames, budget) is None {
            assert forall|i: int| 0 <= i < frames.len() implies (#[trigger] frames[i]).len() <= budget by {
                if i > 0 {
                    assert(frames[i] == t[i - 1]);
                }
            }
        }
    }
}

proof fn lemma_first_oversized(frames: Seq<Seq<u8>>, budget: nat, k: int)
    requires
        0 <= k <= frames.len(),
        forall|j: int| 0 <= j < k ==> (#[trigger] frames[j]).len() <= budget,
    ensures
        k < frames.len() && frames[k].len() > budget ==> first_oversized(frames, budget) == Some(k),
        k == frames.len() ==> first_oversized(frames, budget) is None,
    decreases k,
{
    if k > 0 {
        let t = frames.drop_first();
        assert forall|j: int| 0 <= j < k - 1 implies (#[trigger] t[j]).len() <= budget by {
            assert(t[j] == frames[j + 1]);
        }
        lemma_first_oversized(t, budget, k - 1);
        assert(frames[0].len() <= budget);
    }
}


/// `n` raw bytes, at most `3 * m`, encode to at most `4 * m` base64 symbols.
proof fn lemma_b64_len_bound(n: nat, m: nat)
    requires
        n <= 3 * m,
    ensures
        b64_len(n) <= 4 * m,
{
    let q = n / 3;
    let r = n % 3;
    assert(n == 3 * q + r && r < 3) by (nonlinear_arith)
        requires
            q == n / 3,
            r == n % 3,
    ;
    if r == 0 {
        assert(q <= m) by (nonlinear_arith)
            requires
                3 * q <= 3 * m,
        ;
    } else {
        assert(q + 1 <= m) by (nonlinear_arith)
            requires
                3 * q + r <= 3 * m,
                r > 0,
        ;
    }
}

/// The chunk size a frame budget allows never lets a frame overflow it: a
/// chunk with a plain message id of at most 36 characters (a UUID), any
/// index and total, carrying the base64url text of at most that many raw
/// bytes, serializes to at most `budget` bytes.
pub proof fn lemma_frame_fits(c: ChunkView, budget: nat, cs: nat, n: nat)
    requires
        is_plain(c.message_id),
        c.message_id.len() <= 36,
        forall|i: int| 0 <= i < c.payload_b64.len() ==> is_b64url_char(#[trigger] c.payload_b64[i]),
        c.payload_b64.len() == b64_len(n),
        n <= cs,
        payload_size_for_budget(budget as int) == Some(cs as int),
    ensures
        encode_utf8(chunk_json(c)).len() <= budget,
{
    let m = ((budget - BLE_CHUNK_FRAME_OVERHEAD_BYTES) / 4) as nat;
    assert(n <= 3 * m) by {
        assert(cs <= 3 * m);
    }
    lemma_b64_len_bound(n, m);
    assert(4 * m <= budget - BLE_CHUNK_FRAME_OVERHEAD_BYTES);
    lemma_b64_plain(c.payload_b64);
    lemma_plain_len(c.message_id);
    lemma_plain_len(c.payload_b64);
    lemma_decimal(c.index as nat);
    lemma_decimal(c.total as nat);
    lemma_ascii_len(decimal(c.index as nat));
    lemma_ascii_len(decimal(c.total as nat));
    let l1 = "{\"messageId\":"@;
    let l2 = ",\"index\":"@;
    let l3 = ",\"total\":"@;
    let l4 = ",\"payloadB64\":"@;
    let l5 = "}"@;
    reveal_strlit("{\"messageId\":");
    reveal_strlit(",\"index\":");
    reveal_strlit(",\"total\":");
    reveal_strlit(",\"payloadB64\":");
    reveal_strlit("}");
    assert(l1.len() == 13);
    assert(l2.len() == 9);
    assert(l3.len() == 9);
    assert(l4.len() == 14);
    assert(l5.len() == 1);
    assert(is_ascii_seq(l1));
    assert(is_ascii_seq(l2));
    assert(is_ascii_seq(l3));
    assert(is_ascii_seq(l4));
    assert(is_ascii_seq(l5));
    lemma_ascii_len(l1);
    lemma_ascii_len(l2);
    lemma_ascii_len(l3);
    lemma_ascii_len(l4);
    lemma_ascii_len(l5);
    let j1 = json_string(c.message_id);
    let d1 = decimal(c.index as nat);
    let d2 = decimal(c.total as nat);
    let j2 = json_string(c.payload_b64);
    crate::utf8::lemma_utf8_len_concat(l1, j1);
    crate::utf8::lemma_utf8_len_concat(l1 + j1, l2);
    crate::utf8::lemma_utf8_len_concat(l1 + j1 + l2, d1);
    crate::utf8::lemma_utf8_len_concat(l1 + j1 + l2 + d1, l3);
    crate::utf8::lemma_utf8_len_concat(l1 + j1 + l2 + d1 + l3, d2);
    crate::utf8::lemma_utf8_len_concat(l1 + j1 + l2 + d1 + l3 + d2, l4);
    crate::utf8::lemma_utf8_len_concat(l1 + j1 + l2 + d1 + l3 + d2 + l4, j2);
    crate::utf8::lemma_utf8_len_concat(l1 + j1 + l2 + d1 + l3 + d2 + l4 + j2, l5);
    lemma_encode_len(chunk_json(c));
}

} // verus!
