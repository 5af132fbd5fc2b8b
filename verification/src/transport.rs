//! BLE transport chunking: splitting a signed event into base64url chunks
//! that fit a frame budget, and reassembling a received chunk set.
use vstd::prelude::*;
use crate::encoding::{
    b64_len, b64url_decode, b64url_decode_text, b64url_encode, b64url_encode_bytes,
    decode_error_text, is_b64url_char,
};
use crate::text::push_str;

verus! {

/// Raw payload bytes carried by one chunk at most.
pub const BLE_CHUNK_PAYLOAD_SIZE: usize = 180;

/// Hard ceiling for one serialized transport frame (Core Bluetooth long write).
pub const BLE_MAX_FRAME_BYTES: usize = 512;

/// Notify frame budget while the subscribed host's real limit is unknown.
pub const BLE_CONSERVATIVE_NOTIFY_FRAME_BYTES: usize = 182;

/// Worst-case byte overhead of one serialized chunk frame around its base64
/// payload (JSON keys, a UUID message id, and 5-digit counters).
pub const BLE_CHUNK_FRAME_OVERHEAD_BYTES: usize = 100;

/// Largest number of chunks one message can be split into (`u16::MAX`).
pub const MAX_CHUNKS: usize = 65535;

/// One framed piece of a message.
#[derive(Debug)]
pub struct BleTransportChunk {
    pub message_id: String,
    pub index: u16,
    pub total: u16,
    pub payload_b64: String,
}

pub struct ChunkView {
    pub message_id: Seq<char>,
    pub index: u16,
    pub total: u16,
    pub payload_b64: Seq<char>,
}

impl View for BleTransportChunk {
    type V = ChunkView;

    open spec fn view(&self) -> ChunkView {
        ChunkView {
            message_id: self.message_id@,
            index: self.index,
            total: self.total,
            payload_b64: self.payload_b64@,
        }
    }
}

impl BleTransportChunk {
    pub fn duplicate(&self) -> (r: Self)
        ensures
            r@ == self@,
    {
        BleTransportChunk {
            message_id: self.message_id.clone(),
            index: self.index,
            total: self.total,
            payload_b64: self.payload_b64.clone(),
        }
    }
}

pub open spec fn chunks_view(s: Seq<BleTransportChunk>) -> Seq<ChunkView> {
    s.map_values(|c: BleTransportChunk| c@)
}

/// How many raw payload bytes fit in one chunk whose frame must stay within
/// `frame_budget`: the budget less the frame overhead, scaled by 3/4 for
/// base64, capped at `BLE_CHUNK_PAYLOAD_SIZE`; `None` when not even one byte fits.
pub open spec fn payload_size_for_budget(frame_budget: int) -> Option<int> {
    if frame_budget < BLE_CHUNK_FRAME_OVERHEAD_BYTES {
        None
    } else {
        let raw = ((frame_budget - BLE_CHUNK_FRAME_OVERHEAD_BYTES) / 4) * 3;
        if raw == 0 {
            None
        } else if raw < BLE_CHUNK_PAYLOAD_SIZE {
            Some(raw)
        } else {
            Some(BLE_CHUNK_PAYLOAD_SIZE as int)
        }
    }
}

pub fn chunk_payload_size_for_frame_budget(frame_budget: usize) -> (r: Option<usize>)
    ensures
        match payload_size_for_budget(frame_budget as int) {
            Some(n) => r == Some(n as usize),
            None => r is None,
        },
        r matches Some(n) ==> 0 < n <= BLE_CHUNK_PAYLOAD_SIZE,
{
    if frame_budget < BLE_CHUNK_FRAME_OVERHEAD_BYTES {
        return None;
    }
    let b64_budget = frame_budget - BLE_CHUNK_FRAME_OVERHEAD_BYTES;
    let raw = (b64_budget / 4) * 3;
    if raw == 0 {
        return None;
    }
    if raw < BLE_CHUNK_PAYLOAD_SIZE {
        Some(raw)
    } else {
        Some(BLE_CHUNK_PAYLOAD_SIZE)
    }
}

/// Number of `chunk_size` pieces `len` bytes split into (`slice::chunks`).
pub open spec fn chunk_count(len: nat, chunk_size: nat) -> nat {
    if chunk_size == 0 {
        0
    } else {
        len / chunk_size + if len % chunk_size != 0 {
            1nat
        } else {
            0nat
        }
    }
}

/// The chunk count as framed: at most `u16::MAX`.
pub open spec fn capped_total(len: nat, chunk_size: nat) -> nat {
    let n = chunk_count(len, chunk_size);
    if n > MAX_CHUNKS {
        MAX_CHUNKS as nat
    } else {
        n
    }
}

/// The `k`-th `chunk_size` piece of `payload`.
pub open spec fn chunk_slice(payload: Seq<u8>, chunk_size: nat, k: nat) -> Seq<u8> {
    let lo: int = (k * chunk_size) as int;
    let hi: int = if lo + chunk_size <= payload.len() {
        lo + chunk_size
    } else {
        payload.len() as int
    };
    payload.subrange(lo, hi)
}

/// The bytes chunk `k` carries: the `k`-th piece, or nothing for an empty payload.
pub open spec fn piece(payload: Seq<u8>, chunk_size: nat, k: nat) -> Seq<u8> {
    if payload.len() == 0 {
        Seq::empty()
    } else {
        chunk_slice(payload, chunk_size, k)
    }
}

/// The chunk set of `payload`: one chunk per piece (one empty chunk for an
/// empty payload), each tagged with the message id, its index and the total,
/// carrying its piece in base64url.
pub open spec fn chunk_set(id: Seq<char>, payload: Seq<u8>, chunk_size: nat) -> Seq<ChunkView> {
    let t: nat = if payload.len() == 0 {
        1
    } else {
        capped_total(payload.len(), chunk_size)
    };
    Seq::new(
        t,
        |k: int|
            ChunkView {
                message_id: id,
                index: k as u16,
                total: t as u16,
                payload_b64: b64url_encode(piece(payload, chunk_size, k as nat)),
            },
    )
}

/// `chunks` is the chunk set of `payload`, and each chunk's text is plain
/// base64url of the documented length that decodes back to its piece.
pub open spec fn is_chunking_of(
    chunks: Seq<ChunkView>,
    id: Seq<char>,
    payload: Seq<u8>,
    chunk_size: nat,
) -> bool {
    &&& chunks == chunk_set(id, payload, chunk_size)
    &&& forall|k: int|
        0 <= k < chunks.len() ==> {
            &&& b64url_decode((#[trigger] chunks[k]).payload_b64) == Some(
                piece(payload, chunk_size, k as nat),
            )
            &&& chunks[k].payload_b64.len() == b64_len(piece(payload, chunk_size, k as nat).len())
            &&& forall|i: int|
                0 <= i < chunks[k].payload_b64.len() ==> is_b64url_char(
                    #[trigger] chunks[k].payload_b64[i],
                )
        }
}

proof fn lemma_chunk_start_in_range(len: nat, cs: nat, k: nat)
    requires
        cs > 0,
        k < chunk_count(len, cs),
    ensures
        k * cs < len,
{
    let q = len / cs;
    let r = len % cs;
    assert(len == q * cs + r && 0 <= r < cs) by (nonlinear_arith)
        requires
            cs > 0,
            q == len / cs,
            r == len % cs,
    ;
    if k < q {
        assert(k * cs < len) by (nonlinear_arith)
            requires
                k < q,
                cs > 0,
                len == q * cs + r,
                r >= 0,
        ;
    } else {
        assert(k == q && r != 0);
        assert(k * cs < len);
    }
}

/// Every piece of a chunk set is at most `chunk_size` bytes long.
pub proof fn lemma_piece_len(id: Seq<char>, payload: Seq<u8>, chunk_size: nat, k: nat)
    requires
        chunk_size > 0,
        k < chunk_set(id, payload, chunk_size).len(),
    ensures
        piece(payload, chunk_size, k).len() <= chunk_size,
{
    if payload.len() > 0 {
        lemma_chunk_start_in_range(payload.len(), chunk_size, k);
    }
}

/// Split `payload` into chunks of `chunk_size` bytes (at most `u16::MAX` of
/// them), each base64url encoded and tagged with `message_id`. An empty
/// payload yields one empty chunk.
pub fn chunk_payload_sized(message_id: String, payload: &[u8], chunk_size: usize) -> (r: Vec<
    BleTransportChunk,
>)
    requires
        chunk_size > 0,
        payload@.len() <= usize::MAX / 2,
    ensures
        is_chunking_of(chunks_view(r@), message_id@, payload@, chunk_size as nat),
{
    if payload.len() == 0 {
        let empty: Vec<u8> = Vec::new();
        let encoded = b64url_encode_bytes(empty.as_slice());
        let mut r: Vec<BleTransportChunk> = Vec::new();
        r.push(BleTransportChunk { message_id, index: 0, total: 1, payload_b64: encoded });
        assert(empty@ =~= Seq::<u8>::empty());
        assert(chunks_view(r@) =~= chunk_set(message_id@, payload@, chunk_size as nat));
        return r;
    }
    let len = payload.len();
    assert(len / chunk_size <= len) by (nonlinear_arith)
        requires
            chunk_size > 0,
    ;
    let count = len / chunk_size + if len % chunk_size != 0 {
        1usize
    } else {
        0usize
    };
    let total: usize = if count > MAX_CHUNKS {
        MAX_CHUNKS
    } else {
        count
    };
    let ghost t = capped_total(payload@.len(), chunk_size as nat);
    let ghost spec_set = chunk_set(message_id@, payload@, chunk_size as nat);
    assert(total == t);
    let mut r: Vec<BleTransportChunk> = Vec::new();
    let mut k: usize = 0;
    while k < total
        invariant
            total == t <= MAX_CHUNKS,
            t <= chunk_count(len as nat, chunk_size as nat),
            len == payload@.len(),
            len > 0,
            len <= usize::MAX / 2,
            chunk_size > 0,
            k <= total,
            r@.len() == k,
            spec_set == chunk_set(message_id@, payload@, chunk_size as nat),
            spec_set.len() == t,
            forall|j: int|
                0 <= j < k ==> {
                    &&& (#[trigger] r@[j])@ == spec_set[j]
                    &&& b64url_decode(r@[j]@.payload_b64) == Some(
                        piece(payload@, chunk_size as nat, j as nat),
                    )
                    &&& r@[j]@.payload_b64.len() == b64_len(
                        piece(payload@, chunk_size as nat, j as nat).len(),
                    )
                    &&& forall|i: int|
                        0 <= i < r@[j]@.payload_b64.len() ==> is_b64url_char(
                            #[trigger] r@[j]@.payload_b64[i],
                        )
                },
        decreases total - k,
    {
        proof {
            lemma_chunk_start_in_range(len as nat, chunk_size as nat, k as nat);
        }
        let offset = k * chunk_size;
        let end = if len - offset <= chunk_size {
            len
        } else {
            offset + chunk_size
        };
        let piece_bytes = &payload[offset..end];
        assert(piece_bytes@ == piece(payload@, chunk_size as nat, k as nat));
        let encoded = b64url_encode_bytes(piece_bytes);
        r.push(
            BleTransportChunk {
                message_id: message_id.clone(),
                index: k as u16,
                total: total as u16,
                payload_b64: encoded,
            },
        );
        assert(r@[k as int]@ == spec_set[k as int]);
        k = k + 1;
    }
    assert(chunks_view(r@) =~= spec_set);
    r
}


/// Stable insertion of `c` after every element whose index is at most its own.
pub open spec fn insert_by_index(s: Seq<ChunkView>, c: ChunkView) -> Seq<ChunkView>
    decreases s.len(),
{
    if s.len() == 0 {
        seq![c]
    } else if s.last().index <= c.index {
        s.push(c)
    } else {
        insert_by_index(s.drop_last(), c).push(s.last())
    }
}

/// The chunks stably sorted by index (`slice::sort_by_key` on the index).
pub open spec fn sort_by_index(s: Seq<ChunkView>) -> Seq<ChunkView>
    decreases s.len(),
{
    if s.len() == 0 {
        s
    } else {
        insert_by_index(sort_by_index(s.drop_last()), s.last())
    }
}

/// Why a received chunk set cannot be reassembled.
pub enum ReassemblyFailure {
    Empty,
    Incomplete,
    MixedMessageIds,
    OutOfSequence,
    BadPayload,
}

/// Check and decode the sorted chunks from position `p` on.
pub open spec fn scan_sorted(sorted: Seq<ChunkView>, id: Seq<char>, total: u16, p: int) -> Result<
    Seq<u8>,
    ReassemblyFailure,
>
    decreases sorted.len() - p,
{
    if p < 0 || p >= sorted.len() {
        Ok(Seq::empty())
    } else {
        let c = sorted[p];
        if c.message_id != id {
            Err(ReassemblyFailure::MixedMessageIds)
        } else if c.total != total || c.index != p {
            Err(ReassemblyFailure::OutOfSequence)
        } else {
            match b64url_decode(c.payload_b64) {
                None => Err(ReassemblyFailure::BadPayload),
                Some(bytes) => match scan_sorted(sorted, id, total, p + 1) {
                    Ok(rest) => Ok(bytes + rest),
                    Err(e) => Err(e),
                },
            }
        }
    }
}

/// The message a received chunk set carries: the first chunk names the
/// message id and total; the set must hold exactly `total` chunks which,
/// sorted by index, are numbered 0, 1, ... with that id and total, and whose
/// payloads decode; the decoded payloads are concatenated in index order.
pub open spec fn reassemble(chunks: Seq<ChunkView>) -> Result<Seq<u8>, ReassemblyFailure> {
    if chunks.len() == 0 {
        Err(ReassemblyFailure::Empty)
    } else if chunks[0].total == 0 || chunks.len() != chunks[0].total {
        Err(ReassemblyFailure::Incomplete)
    } else {
        scan_sorted(sort_by_index(chunks), chunks[0].message_id, chunks[0].total, 0)
    }
}

pub open spec fn reassembly_message(f: ReassemblyFailure) -> Seq<char> {
    match f {
        ReassemblyFailure::Empty => "No BLE chunks were provided"@,
        ReassemblyFailure::Incomplete => "BLE chunk set is incomplete"@,
        ReassemblyFailure::MixedMessageIds => "BLE chunks contain mixed message ids"@,
        ReassemblyFailure::OutOfSequence => "BLE chunks are out of sequence"@,
        ReassemblyFailure::BadPayload => "BLE chunk payload was not base64url encoded: "@,
    }
}

/// The error text for `f`; a decode failure's text goes on with the decoder's
/// own message.
pub open spec fn is_reassembly_error(e: Seq<char>, f: ReassemblyFailure) -> bool {
    match f {
        ReassemblyFailure::BadPayload => reassembly_message(f).is_prefix_of(e),
        _ => e == reassembly_message(f),
    }
}

proof fn lemma_insert_by_index(s: Seq<ChunkView>, c: ChunkView, j: int)
    requires
        0 <= j <= s.len(),
        forall|m: int| j <= m < s.len() ==> (#[trigger] s[m]).index > c.index,
        j == 0 || s[j - 1].index <= c.index,
    ensures
        insert_by_index(s, c) == s.insert(j, c),
    decreases s.len() - j,
{
    if j == s.len() {
        if s.len() == 0 {
            assert(s.insert(0, c) =~= seq![c]);
        } else {
            assert(s.insert(j, c) =~= s.push(c));
        }
    } else {
        let t = s.drop_last();
        assert forall|m: int| j <= m < t.len() implies (#[trigger] t[m]).index > c.index by {
            assert(t[m] == s[m]);
        }
        lemma_insert_by_index(t, c, j);
        assert(s.insert(j, c) =~= t.insert(j, c).push(s.last()));
    }
}

/// The chunks stably sorted by index.
pub fn sort_chunks(chunks: &[BleTransportChunk]) -> (r: Vec<BleTransportChunk>)
    ensures
        chunks_view(r@) == sort_by_index(chunks_view(chunks@)),
{
    let mut sorted: Vec<BleTransportChunk> = Vec::new();
    let mut i: usize = 0;
    while i < chunks.len()
        invariant
            i <= chunks@.len(),
            chunks_view(sorted@) == sort_by_index(chunks_view(chunks@.subrange(0, i as int))),
        decreases chunks.len() - i,
    {
        let c = chunks[i].duplicate();
        let mut j = sorted.len();
        while j > 0 && sorted[j - 1].index > c.index
            invariant
                j <= sorted@.len(),
                forall|m: int| j <= m < sorted@.len() ==> (#[trigger] sorted@[m]).index > c.index,
            decreases j,
        {
            j = j - 1;
        }
        let ghost before = chunks_view(sorted@);
        proof {
            assert forall|m: int| j <= m < before.len() implies (#[trigger] before[m]).index
                > c@.index by {
                assert(before[m] == sorted@[m]@);
            }
            if j > 0 {
                assert(before[j - 1] == sorted@[j - 1]@);
            }
            lemma_insert_by_index(before, c@, j as int);
            let next = chunks_view(chunks@.subrange(0, i + 1));
            assert(next.drop_last() =~= chunks_view(chunks@.subrange(0, i as int)));
            assert(next.last() == c@);
        }
        sorted.insert(j, c);
        assert(chunks_view(sorted@) =~= before.insert(j as int, c@));
        i = i + 1;
    }
    assert(chunks@.subrange(0, chunks@.len() as int) =~= chunks@);
    sorted
}

/// Put a received chunk set back together (see [`reassemble`]).
pub fn reassemble_chunks(chunks: &[BleTransportChunk]) -> (r: Result<Vec<u8>, String>)
    ensures
        match reassemble(chunks_view(chunks@)) {
            Ok(bytes) => r matches Ok(v) && v@ == bytes,
            Err(f) => r matches Err(e) && is_reassembly_error(e@, f),
        },
{
    if chunks.len() == 0 {
        return Err("No BLE chunks were provided".to_owned());
    }
    let first = &chunks[0];
    let total = first.total;
    if total == 0 || chunks.len() != total as usize {
        return Err("BLE chunk set is incomplete".to_owned());
    }
    let ghost view = chunks_view(chunks@);
    assert(view[0] == first@);
    let ordered = sort_chunks(chunks);
    let ghost sorted = chunks_view(ordered@);
    proof {
        lemma_sort_len(view);
    }
    let mut out: Vec<u8> = Vec::new();
    let mut p: usize = 0;
    while p < ordered.len()
        invariant
            sorted == chunks_view(ordered@),
            sorted.len() == total,
            p <= ordered@.len(),
            reassemble(view) == match scan_sorted(sorted, first.message_id@, total, p as int) {
                Ok(rest) => Ok(out@ + rest),
                Err(e) => Err(e),
            },
            view == chunks_view(chunks@),
            view[0] == first@,
            view.len() == total,
            total > 0,
        decreases ordered.len() - p,
    {
        let c = &ordered[p];
        assert(sorted[p as int] == c@);
        if c.message_id != first.message_id {
            return Err("BLE chunks contain mixed message ids".to_owned());
        }
        assert(p < total);
        assert((p as u16) as int == p as int);
        if c.total != total || c.index != p as u16 {
            return Err("BLE chunks are out of sequence".to_owned());
        }
        match b64url_decode_text(c.payload_b64.as_str()) {
            Err(error) => {
                let mut message = "BLE chunk payload was not base64url encoded: ".to_owned();
                let text = decode_error_text(&error);
                let ghost head = message@;
                push_str(&mut message, text.as_str());
                assert(head.is_prefix_of(message@)) by {
                    assert(message@.subrange(0, head.len() as int) =~= head);
                }
                return Err(message);
            },
            Ok(bytes) => {
                let ghost before = out@;
                let mut piece = bytes;
                out.append(&mut piece);
                assert(out@ == before + bytes@);
                proof {
                    match scan_sorted(sorted, first.message_id@, total, p + 1) {
                        Ok(rest) => {
                            assert(out@ + rest =~= before + (bytes@ + rest));
                        },
                        Err(e) => {},
                    }
                }
            },
        }
        p = p + 1;
    }
    assert(out@ + Seq::<u8>::empty() =~= out@);
    Ok(out)
}

proof fn lemma_insert_len(s: Seq<ChunkView>, c: ChunkView)
    ensures
        insert_by_index(s, c).len() == s.len() + 1,
    decreases s.len(),
{
    if s.len() > 0 && s.last().index > c.index {
        lemma_insert_len(s.drop_last(), c);
    }
}

pub proof fn lemma_sort_len(s: Seq<ChunkView>)
    ensures
        sort_by_index(s).len() == s.len(),
    decreases s.len(),
{
    if s.len() > 0 {
        lemma_sort_len(s.drop_last());
        lemma_insert_len(sort_by_index(s.drop_last()), s.last());
    }
}


proof fn lemma_sort_identity(s: Seq<ChunkView>)
    requires
        forall|k: int| 0 <= k < s.len() ==> (#[trigger] s[k]).index == k,
    ensures
        sort_by_index(s) == s,
    decreases s.len(),
{
    if s.len() > 0 {
        let t = s.drop_last();
        assert forall|k: int| 0 <= k < t.len() implies (#[trigger] t[k]).index == k by {
            assert(t[k] == s[k]);
        }
        lemma_sort_identity(t);
        if t.len() > 0 {
            assert(t.last().index <= s.last().index);
        }
        assert(t.push(s.last()) =~= s);
    }
}

proof fn lemma_chunk_end(len: nat, cs: nat)
    requires
        cs > 0,
    ensures
        chunk_count(len, cs) * cs >= len,
{
    let q = len / cs;
    let r = len % cs;
    assert(len == q * cs + r && 0 <= r < cs) by (nonlinear_arith)
        requires
            cs > 0,
            q == len / cs,
            r == len % cs,
    ;
    if r != 0 {
        assert((q + 1) * cs == q * cs + cs) by (nonlinear_arith);
    }
}

proof fn lemma_scan_chunked(chunks: Seq<ChunkView>, id: Seq<char>, payload: Seq<u8>, cs: nat, p: int)
    requires
        cs > 0,
        payload.len() > 0,
        chunk_count(payload.len(), cs) <= MAX_CHUNKS,
        is_chunking_of(chunks, id, payload, cs),
        0 <= p <= chunks.len(),
    ensures
        ({
            let lo = if p * cs <= payload.len() { p * cs } else { payload.len() as int };
            scan_sorted(chunks, id, chunks.len() as u16, p) == Ok::<Seq<u8>, ReassemblyFailure>(payload.subrange(lo, payload.len() as int))
        }),
    decreases chunks.len() - p,
{
    let t = chunks.len();
    let len = payload.len();
    assert(t == chunk_count(len, cs));
    if p == t {
        lemma_chunk_end(len, cs);
        assert(p * cs >= len);
        assert(payload.subrange(len as int, len as int) =~= Seq::<u8>::empty());
    } else {
        lemma_chunk_start_in_range(len, cs, p as nat);
        let c = chunks[p];
        assert(c.message_id == id);
        assert(c.index == p);
        assert(c.total == t);
        assert((t as u16) as int == t);
        lemma_scan_chunked(chunks, id, payload, cs, p + 1);
        let slice = chunk_slice(payload, cs, p as nat);
        assert(b64url_decode(c.payload_b64) == Some(slice));
        assert((p + 1) * cs == p * cs + cs) by (nonlinear_arith);
        let lo = p * cs;
        let hi = if lo + cs <= len { lo + cs } else { len as int };
        let lo2 = if (p + 1) * cs <= len { (p + 1) * cs } else { len as int };
        assert(lo2 == hi);
        assert(slice + payload.subrange(lo2, len as int) =~= payload.subrange(lo, len as int));
    }
}

/// Reassembling the chunk set `chunk_payload_sized` made of a payload gives
/// back that payload, for payloads that fit in `u16::MAX` chunks (longer ones
/// are cut at that many chunks when they are split).
pub proof fn lemma_chunks_reassemble(
    chunks: Seq<ChunkView>,
    id: Seq<char>,
    payload: Seq<u8>,
    chunk_size: nat,
)
    requires
        chunk_size > 0,
        chunk_count(payload.len(), chunk_size) <= MAX_CHUNKS,
        is_chunking_of(chunks, id, payload, chunk_size),
    ensures
        reassemble(chunks) == Ok::<Seq<u8>, ReassemblyFailure>(payload),
{
    if payload.len() == 0 {
        assert(sort_by_index(chunks) =~= chunks) by {
            assert(chunks.drop_last() =~= Seq::<ChunkView>::empty());
            assert(sort_by_index(chunks.drop_last()) =~= Seq::<ChunkView>::empty());
        }
        assert(scan_sorted(chunks, id, 1, 1) == Ok::<Seq<u8>, ReassemblyFailure>(Seq::<u8>::empty()));
        assert(Seq::<u8>::empty() + Seq::<u8>::empty() =~= payload);
    } else {
        let t = chunks.len();
        assert(t > 0) by {
            lemma_chunk_end(payload.len(), chunk_size);
            if t == 0 {
                assert(0 * chunk_size == 0);
            }
        }
        assert(chunks[0].total == t);
        assert(forall|k: int| 0 <= k < t ==> (#[trigger] chunks[k]).index == k);
        lemma_sort_identity(chunks);
        lemma_scan_chunked(chunks, id, payload, chunk_size, 0);
        assert(0 * chunk_size == 0);
        assert(payload.subrange(0, payload.len() as int) =~= payload);
    }
}


/// The chunks are in non-decreasing index order.
pub open spec fn sorted_by_index(s: Seq<ChunkView>) -> bool {
    forall|i: int, j: int| 0 <= i <= j < s.len() ==> (#[trigger] s[i]).index <= (#[trigger] s[j]).index
}

proof fn lemma_insert_sorted(s: Seq<ChunkView>, c: ChunkView)
    requires
        sorted_by_index(s),
    ensures
        sorted_by_index(insert_by_index(s, c)),
        insert_by_index(s, c).to_multiset() == s.to_multiset().insert(c),
    decreases s.len(),
{
    broadcast use vstd::seq_lib::group_to_multiset_ensures;

    if s.len() == 0 {
        assert(seq![c] =~= Seq::<ChunkView>::empty().push(c));
        assert(Seq::<ChunkView>::empty().to_multiset() =~= vstd::multiset::Multiset::empty());
    } else if s.last().index <= c.index {
        assert(s.drop_last().push(s.last()) =~= s);
    } else {
        let t = s.drop_last();
        let x = s.last();
        assert(sorted_by_index(t)) by {
            assert forall|i: int, j: int| 0 <= i <= j < t.len() implies (#[trigger] t[i]).index
                <= (#[trigger] t[j]).index by {
                assert(t[i] == s[i] && t[j] == s[j]);
            }
        }
        lemma_insert_sorted(t, c);
        let u = insert_by_index(t, c);
        assert(t.push(x) =~= s);
        assert forall|i: int| 0 <= i < u.len() implies (#[trigger] u[i]).index <= x.index by {
            assert(u.contains(u[i]));
            assert(u.to_multiset().count(u[i]) > 0);
            if u[i] != c {
                assert(t.to_multiset().count(u[i]) > 0);
                assert(t.contains(u[i]));
                let k = choose|k: int| 0 <= k < t.len() && t[k] == u[i];
                assert(s[k] == t[k]);
                assert(s[k].index <= s[s.len() - 1].index);
            }
        }
        let v = u.push(x);
        assert forall|i: int, j: int| 0 <= i <= j < v.len() implies (#[trigger] v[i]).index
            <= (#[trigger] v[j]).index by {
            if j < u.len() {
                assert(v[i] == u[i] && v[j] == u[j]);
            } else if i < u.len() {
                assert(v[i] == u[i]);
            }
        }
        assert(v.to_multiset() =~= s.to_multiset().insert(c));
    }
}

/// Sorting by index keeps every chunk and leaves them in index order.
pub proof fn lemma_sort_is_sorted_permutation(s: Seq<ChunkView>)
    ensures
        sorted_by_index(sort_by_index(s)),
        sort_by_index(s).to_multiset() == s.to_multiset(),
    decreases s.len(),
{
    broadcast use vstd::seq_lib::group_to_multiset_ensures;

    if s.len() == 0 {
    } else {
        lemma_sort_is_sorted_permutation(s.drop_last());
        lemma_insert_sorted(sort_by_index(s.drop_last()), s.last());
        assert(s.drop_last().push(s.last()) =~= s);
    }
}

/// Position `p` on, the sorted chunks carry index `p`, message id `id` and total `total`.
pub open spec fn numbered_from(sorted: Seq<ChunkView>, id: Seq<char>, total: u16, p: int) -> bool {
    forall|q: int|
        p <= q < sorted.len() ==> {
            &&& (#[trigger] sorted[q]).index == q
            &&& sorted[q].message_id == id
            &&& sorted[q].total == total
            &&& b64url_decode(sorted[q].payload_b64) is Some
        }
}

pub proof fn lemma_scan_ok_numbered(sorted: Seq<ChunkView>, id: Seq<char>, total: u16, p: int)
    requires
        0 <= p,
        scan_sorted(sorted, id, total, p) is Ok,
    ensures
        numbered_from(sorted, id, total, p),
    decreases sorted.len() - p,
{
    if p < sorted.len() {
        lemma_scan_ok_numbered(sorted, id, total, p + 1);
    }
}

/// Two index-ordered arrangements of the same chunks are the same sequence
/// when one of them is numbered 0, 1, ... by index.
proof fn lemma_sorted_unique(a: Seq<ChunkView>, b: Seq<ChunkView>)
    requires
        sorted_by_index(a),
        sorted_by_index(b),
        a.to_multiset() == b.to_multiset(),
        forall|i: int| 0 <= i < a.len() ==> (#[trigger] a[i]).index == i,
    ensures
        a == b,
    decreases a.len(),
{
    broadcast use vstd::seq_lib::group_to_multiset_ensures;

    vstd::seq_lib::to_multiset_len(a);
    vstd::seq_lib::to_multiset_len(b);
    assert(a.len() == b.len());
    if a.len() > 0 {
        let n = a.len() as int;
        let x = a.last();
        let y = b.last();
        assert(b.contains(y));
        assert(a.to_multiset().count(y) > 0);
        assert(a.contains(y));
        let i = choose|i: int| 0 <= i < a.len() && a[i] == y;
        assert(a.contains(x));
        assert(b.to_multiset().count(x) > 0);
        assert(b.contains(x));
        let j = choose|j: int| 0 <= j < b.len() && b[j] == x;
        assert(b[j].index <= b[n - 1].index);
        assert(a[i].index == i);
        assert(x.index == n - 1);
        assert(i == n - 1);
        assert(x == y);
        let a2 = a.drop_last();
        let b2 = b.drop_last();
        assert(a2.push(x) =~= a);
        assert(b2.push(x) =~= b);
        vstd::seq_lib::to_multiset_build(a2, x);
        vstd::seq_lib::to_multiset_build(b2, x);
        assert(a2.to_multiset() =~= b2.to_multiset()) by {
            assert forall|z: ChunkView| a2.to_multiset().count(z) == b2.to_multiset().count(z) by {
                assert(a.to_multiset().count(z) == b.to_multiset().count(z));
                assert(a2.to_multiset().insert(x).count(z) == a2.to_multiset().count(z) + if z == x {
                    1int
                } else {
                    0int
                });
                assert(b2.to_multiset().insert(x).count(z) == b2.to_multiset().count(z) + if z == x {
                    1int
                } else {
                    0int
                });
            }
        }
        assert(sorted_by_index(a2)) by {
            assert forall|i: int, j: int| 0 <= i <= j < a2.len() implies (#[trigger] a2[i]).index
                <= (#[trigger] a2[j]).index by {
                assert(a2[i] == a[i] && a2[j] == a[j]);
            }
        }
        assert(sorted_by_index(b2)) by {
            assert forall|i: int, j: int| 0 <= i <= j < b2.len() implies (#[trigger] b2[i]).index
                <= (#[trigger] b2[j]).index by {
                assert(b2[i] == b[i] && b2[j] == b[j]);
            }
        }
        assert forall|i: int| 0 <= i < a2.len() implies (#[trigger] a2[i]).index == i by {
            assert(a2[i] == a[i]);
        }
        lemma_sorted_unique(a2, b2);
    } else {
        assert(a =~= b);
    }
}

/// Reassembly does not depend on the order in which the chunks arrived: any
/// rearrangement of a chunk set that reassembles gives the same message.
pub proof fn lemma_reassemble_order_free(s: Seq<ChunkView>, t: Seq<ChunkView>)
    requires
        s.to_multiset() == t.to_multiset(),
        reassemble(s) is Ok,
    ensures
        reassemble(t) == reassemble(s),
{
    broadcast use vstd::seq_lib::group_to_multiset_ensures;

    vstd::seq_lib::to_multiset_len(s);
    vstd::seq_lib::to_multiset_len(t);
    assert(s.len() == t.len());
    let id = s[0].message_id;
    let total = s[0].total;
    let ss = sort_by_index(s);
    let st = sort_by_index(t);
    lemma_sort_len(s);
    lemma_sort_is_sorted_permutation(s);
    lemma_sort_is_sorted_permutation(t);
    lemma_scan_ok_numbered(ss, id, total, 0);
    assert forall|i: int| 0 <= i < ss.len() implies (#[trigger] ss[i]).index == i by {}
    lemma_sorted_unique(ss, st);
    assert(t.contains(t[0]));
    assert(ss.to_multiset().count(t[0]) > 0);
    assert(ss.contains(t[0]));
    let k = choose|k: int| 0 <= k < ss.len() && ss[k] == t[0];
    assert(ss[k].message_id == id && ss[k].total == total);
}


proof fn lemma_count_at_least_two(s: Seq<ChunkView>, i: int, j: int)
    requires
        0 <= i < j < s.len(),
        s[i] == s[j],
    ensures
        s.to_multiset().count(s[i]) >= 2,
{
    broadcast use vstd::seq_lib::group_to_multiset_ensures;

    let r = s.remove(i);
    assert(r[j - 1] == s[j]);
    assert(r.contains(s[i]));
    assert(r.to_multiset().count(s[i]) > 0);
}

proof fn lemma_count_one(s: Seq<ChunkView>, p: int)
    requires
        0 <= p < s.len(),
        forall|q: int| 0 <= q < s.len() && q != p ==> s[q] != s[p],
    ensures
        s.to_multiset().count(s[p]) == 1,
{
    broadcast use vstd::seq_lib::group_to_multiset_ensures;

    let r = s.remove(p);
    assert(!r.contains(s[p])) by {
        if r.contains(s[p]) {
            let q = choose|q: int| 0 <= q < r.len() && r[q] == s[p];
            if q < p {
                assert(r[q] == s[q]);
            } else {
                assert(r[q] == s[q + 1]);
            }
        }
    }
    assert(r.to_multiset().count(s[p]) == 0);
    assert(s.contains(s[p]));
    assert(s.to_multiset().count(s[p]) > 0);
}

/// A complete chunk set: every chunk carries the first chunk's message id and
/// total, which is the number of chunks; their indices are distinct and below
/// it (so they are 0, 1, ... in some order); every payload is base64url.
pub open spec fn is_complete_chunk_set(s: Seq<ChunkView>) -> bool {
    &&& s.len() > 0
    &&& s[0].total as int == s.len()
    &&& forall|i: int|
        0 <= i < s.len() ==> {
            &&& (#[trigger] s[i]).message_id == s[0].message_id
            &&& s[i].total == s[0].total
            &&& (s[i].index as int) < s.len()
            &&& b64url_decode(s[i].payload_b64) is Some
        }
    &&& forall|i: int, j: int|
        0 <= i < j < s.len() ==> (#[trigger] s[i]).index != (#[trigger] s[j]).index
}

/// The chunk carrying index `k`.
pub open spec fn chunk_with_index(s: Seq<ChunkView>, k: int) -> ChunkView {
    s[choose|i: int| 0 <= i < s.len() && s[i].index == k]
}

/// The decoded payloads of the chunks with indices `k`, `k + 1`, ... up to
/// the number of chunks, concatenated.
pub open spec fn decoded_in_index_order(s: Seq<ChunkView>, k: int) -> Seq<u8>
    decreases s.len() - k,
{
    if k < 0 || k >= s.len() {
        Seq::empty()
    } else {
        b64url_decode(chunk_with_index(s, k).payload_b64).unwrap() + decoded_in_index_order(s, k + 1)
    }
}

proof fn lemma_scan_numbered(sorted: Seq<ChunkView>, s: Seq<ChunkView>, id: Seq<char>, total: u16, p: int)
    requires
        0 <= p <= sorted.len(),
        sorted.len() == s.len(),
        numbered_from(sorted, id, total, p),
        forall|k: int| 0 <= k < sorted.len() ==> #[trigger] chunk_with_index(s, k) == sorted[k],
    ensures
        scan_sorted(sorted, id, total, p) == Ok::<Seq<u8>, ReassemblyFailure>(
            decoded_in_index_order(s, p),
        ),
    decreases sorted.len() - p,
{
    if p < sorted.len() {
        lemma_scan_numbered(sorted, s, id, total, p + 1);
        assert(chunk_with_index(s, p) == sorted[p]);
    }
}

/// In a chunk set whose sorted arrangement is numbered 0, 1, ..., the chunk
/// at each sorted position is the one carrying that index, and it occurs once.
proof fn lemma_numbered_positions(s: Seq<ChunkView>, ss: Seq<ChunkView>)
    requires
        ss.to_multiset() == s.to_multiset(),
        ss.len() == s.len(),
        forall|q: int| 0 <= q < ss.len() ==> (#[trigger] ss[q]).index == q,
    ensures
        forall|k: int| 0 <= k < ss.len() ==> #[trigger] chunk_with_index(s, k) == ss[k],
        forall|i: int| 0 <= i < s.len() ==> (s[i].index as int) < s.len() && #[trigger] s[i] == ss[s[i].index as int],
        forall|i: int, j: int| 0 <= i < j < s.len() ==> (#[trigger] s[i]).index != (#[trigger] s[j]).index,
{
    broadcast use vstd::seq_lib::group_to_multiset_ensures;

    assert forall|i: int| 0 <= i < s.len() implies (s[i].index as int) < s.len() && #[trigger] s[i]
        == ss[s[i].index as int] by {
        assert(s.contains(s[i]));
        assert(ss.to_multiset().count(s[i]) > 0);
        assert(ss.contains(s[i]));
        let q = choose|q: int| 0 <= q < ss.len() && ss[q] == s[i];
        assert(ss[q].index == q);
    }
    assert forall|k: int| 0 <= k < ss.len() implies #[trigger] chunk_with_index(s, k) == ss[k] by {
        assert(ss.contains(ss[k]));
        assert(s.to_multiset().count(ss[k]) > 0);
        assert(s.contains(ss[k]));
        let i0 = choose|i: int| 0 <= i < s.len() && s[i] == ss[k];
        assert(s[i0].index == k);
        let i = choose|i: int| 0 <= i < s.len() && s[i].index == k;
        assert(s[i] == ss[s[i].index as int]);
    }
    assert forall|i: int, j: int| 0 <= i < j < s.len() implies (#[trigger] s[i]).index != (
    #[trigger] s[j]).index by {
        if s[i].index == s[j].index {
            let p = s[i].index as int;
            assert(s[i] == ss[p] && s[j] == ss[p]);
            lemma_count_at_least_two(s, i, j);
            assert forall|q: int| 0 <= q < ss.len() && q != p implies ss[q] != ss[p] by {
                assert(ss[q].index == q);
            }
            lemma_count_one(ss, p);
        }
    }
}

/// A sorted chunk set with distinct indices below its length is numbered
/// 0, 1, ... from position `p` on, once it is from the end back to `p + 1`.
proof fn lemma_sorted_distinct_numbered(ss: Seq<ChunkView>)
    requires
        sorted_by_index(ss),
        forall|q: int| 0 <= q < ss.len() ==> ((#[trigger] ss[q]).index as int) < ss.len(),
        forall|i: int, j: int| 0 <= i < j < ss.len() ==> (#[trigger] ss[i]).index != (#[trigger] ss[j]).index,
    ensures
        forall|q: int| 0 <= q < ss.len() ==> (#[trigger] ss[q]).index == q,
{
    let n = ss.len() as int;
    // From the front: each index is at least its position.
    assert forall|q: int| 0 <= q < n implies (#[trigger] ss[q]).index >= q by {
        lemma_index_at_least(ss, q);
    }
    // From the back: each index is at most its position.
    assert forall|q: int| 0 <= q < n implies (#[trigger] ss[q]).index <= q by {
        lemma_index_at_most(ss, q);
    }
}

proof fn lemma_index_at_least(ss: Seq<ChunkView>, q: int)
    requires
        0 <= q < ss.len(),
        sorted_by_index(ss),
        forall|i: int, j: int| 0 <= i < j < ss.len() ==> (#[trigger] ss[i]).index != (#[trigger] ss[j]).index,
    ensures
        ss[q].index >= q,
    decreases q,
{
    if q > 0 {
        lemma_index_at_least(ss, q - 1);
        assert(ss[q - 1].index <= ss[q].index);
        assert(ss[q - 1].index != ss[q].index);
    }
}

proof fn lemma_index_at_most(ss: Seq<ChunkView>, q: int)
    requires
        0 <= q < ss.len(),
        sorted_by_index(ss),
        forall|p: int| 0 <= p < ss.len() ==> ((#[trigger] ss[p]).index as int) < ss.len(),
        forall|i: int, j: int| 0 <= i < j < ss.len() ==> (#[trigger] ss[i]).index != (#[trigger] ss[j]).index,
    ensures
        ss[q].index <= q,
    decreases ss.len() - q,
{
    if q < ss.len() - 1 {
        lemma_index_at_most(ss, q + 1);
        assert(ss[q].index <= ss[q + 1].index);
        assert(ss[q].index != ss[q + 1].index);
    }
}

/// What reassembly gives, characterized without the sort: a chunk set
/// reassembles exactly when it is complete (see [`is_complete_chunk_set`]),
/// and then to the decoded payloads concatenated in index order; with no
/// chunk at all it fails as empty.
pub proof fn lemma_reassemble_characterized(s: Seq<ChunkView>)
    ensures
        s.len() == 0 ==> reassemble(s) == Err::<Seq<u8>, ReassemblyFailure>(ReassemblyFailure::Empty),
        reassemble(s) is Ok <==> is_complete_chunk_set(s),
        is_complete_chunk_set(s) ==> reassemble(s) == Ok::<Seq<u8>, ReassemblyFailure>(
            decoded_in_index_order(s, 0),
        ),
{
    broadcast use vstd::seq_lib::group_to_multiset_ensures;

    if s.len() > 0 {
        let ss = sort_by_index(s);
        let id = s[0].message_id;
        let total = s[0].total;
        lemma_sort_len(s);
        lemma_sort_is_sorted_permutation(s);
        if reassemble(s) is Ok {
            lemma_scan_ok_numbered(ss, id, total, 0);
            assert forall|q: int| 0 <= q < ss.len() implies (#[trigger] ss[q]).index == q by {}
            lemma_numbered_positions(s, ss);
            assert forall|i: int| 0 <= i < s.len() implies {
                &&& (#[trigger] s[i]).message_id == s[0].message_id
                &&& s[i].total == s[0].total
                &&& (s[i].index as int) < s.len()
                &&& b64url_decode(s[i].payload_b64) is Some
            } by {
                assert(s[i] == ss[s[i].index as int]);
            }
            lemma_scan_numbered(ss, s, id, total, 0);
        }
        if is_complete_chunk_set(s) {
            // Every sorted chunk is one of the set, so its index is below the length.
            assert forall|q: int| 0 <= q < ss.len() implies exists|i: int|
                0 <= i < s.len() && #[trigger] ss[q] == s[i] by {
                assert(ss.contains(ss[q]));
                assert(s.to_multiset().count(ss[q]) > 0);
                assert(s.contains(ss[q]));
            }
            assert forall|q: int| 0 <= q < ss.len() implies ((#[trigger] ss[q]).index as int)
                < ss.len() && ss[q].message_id == id && ss[q].total == total && b64url_decode(
                ss[q].payload_b64,
            ) is Some by {
                let i = choose|i: int| 0 <= i < s.len() && ss[q] == s[i];
                assert(s[i] == ss[q]);
            }
            assert forall|a: int, b: int| 0 <= a < b < ss.len() implies (#[trigger] ss[a]).index
                != (#[trigger] ss[b]).index by {
                if ss[a].index == ss[b].index {
                    let i = choose|i: int| 0 <= i < s.len() && ss[a] == s[i];
                    let j = choose|j: int| 0 <= j < s.len() && ss[b] == s[j];
                    assert(s[i].index == s[j].index);
                    assert(i == j) by {
                        if i < j {
                            assert(s[i].index != s[j].index);
                        } else if j < i {
                            assert(s[j].index != s[i].index);
                        }
                    }
                    assert(ss[a] == ss[b]);
                    lemma_count_at_least_two(ss, a, b);
                    assert forall|k: int| 0 <= k < s.len() && k != i implies s[k] != s[i] by {
                        if k < i {
                            assert(s[k].index != s[i].index);
                        } else {
                            assert(s[i].index != s[k].index);
                        }
                    }
                    lemma_count_one(s, i);
                }
            }
            lemma_sorted_distinct_numbered(ss);
            assert(numbered_from(ss, id, total, 0));
            lemma_numbered_positions(s, ss);
            lemma_scan_numbered(ss, s, id, total, 0);
        }
    }
}

} // verus!
