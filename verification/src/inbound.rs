//! Buffering of received transport chunks until every chunk of a message
//! has arrived, bounded in how many messages may be incomplete at once.
use vstd::prelude::*;
use crate::encoding::b64url_decode;
use crate::text::push_str;
use crate::transport::{
    chunk_with_index, chunks_view, decoded_in_index_order, is_complete_chunk_set,
    is_reassembly_error, lemma_reassemble_characterized, lemma_scan_ok_numbered,
    lemma_sort_is_sorted_permutation, lemma_sort_len, reassemble, reassemble_chunks,
    sort_by_index, BleTransportChunk, ChunkView, ReassemblyFailure,
};
use crate::warnings::{push_warning_once, strings_view, with_warning};

verus! {

/// Cap on concurrently-reassembling inbound messages.
pub const BLE_MAX_INFLIGHT_MESSAGES: usize = 64;

/// The chunks received so far for one message.
pub struct PendingMessage {
    pub message_id: String,
    pub chunks: Vec<BleTransportChunk>,
}

/// Partially received messages, keyed by message id.
pub struct InboundReassembly {
    pending: Vec<PendingMessage>,
}

pub open spec fn pending_ids(s: Seq<PendingMessage>) -> Seq<Seq<char>> {
    s.map_values(|m: PendingMessage| m.message_id@)
}

/// The message-id -> received-chunks map a pending list stands for.
pub open spec fn pending_map(s: Seq<PendingMessage>) -> Map<Seq<char>, Seq<ChunkView>>
    decreases s.len(),
{
    if s.len() == 0 {
        Map::empty()
    } else {
        pending_map(s.drop_last()).insert(s.last().message_id@, chunks_view(s.last().chunks@))
    }
}

pub open spec fn unique_ids(s: Seq<PendingMessage>) -> bool {
    forall|i: int, j: int|
        0 <= i < s.len() && 0 <= j < s.len() && i != j ==> s[i].message_id@ != s[j].message_id@
}

/// `entry` with `c` replacing a chunk of the same index, or appended.
pub open spec fn merge_chunk(entry: Seq<ChunkView>, c: ChunkView) -> Seq<ChunkView> {
    if exists|j: int| 0 <= j < entry.len() && entry[j].index == c.index {
        let j = choose|j: int|
            0 <= j < entry.len() && entry[j].index == c.index && forall|k: int|
                0 <= k < j ==> entry[k].index != c.index;
        entry.update(j, c)
    } else {
        entry.push(c)
    }
}

pub open spec fn malformed_frame_warning(error: Seq<char>) -> Seq<char> {
    "Dropped malformed inbound BLE frame: "@ + error
}

pub open spec fn too_many_warning() -> Seq<char> {
    "Too many incomplete inbound BLE messages; dropping new chunk."@
}

pub open spec fn reassembly_warning(error: Seq<char>) -> Seq<char> {
    "Failed to reassemble received BLE chunks: "@ + error
}

/// What taking in a well-formed chunk does to the pending map, the warnings
/// and the result.
pub open spec fn chunk_ingested(
    before: Map<Seq<char>, Seq<ChunkView>>,
    after: Map<Seq<char>, Seq<ChunkView>>,
    warnings_before: Seq<Seq<char>>,
    warnings_after: Seq<Seq<char>>,
    c: ChunkView,
    r: Option<Seq<u8>>,
) -> bool {
    let id = c.message_id;
    if c.total == 0 {
        &&& after == before
        &&& r is None
        &&& warnings_after == warnings_before
    } else if !before.dom().contains(id) && before.dom().len() >= BLE_MAX_INFLIGHT_MESSAGES {
        &&& after == before
        &&& r is None
        &&& warnings_after == with_warning(warnings_before, too_many_warning())
    } else {
        let prior = if before.dom().contains(id) {
            before[id]
        } else {
            Seq::empty()
        };
        let entry = merge_chunk(prior, c);
        if entry.len() % 65536 != c.total as int {
            &&& after == before.insert(id, entry)
            &&& r is None
            &&& warnings_after == warnings_before
        } else {
            &&& after == before.remove(id)
            &&& match reassemble(entry) {
                Ok(bytes) => {
                    &&& r == Some(bytes)
                    &&& warnings_after == warnings_before
                },
                Err(f) => {
                    &&& r is None
                    &&& reassembly_noted(warnings_before, warnings_after, f)
                },
            }
        }
    }
}

/// `warnings_after` is `warnings_before` plus the note for a failed
/// reassembly of kind `f`.
pub open spec fn reassembly_noted(
    warnings_before: Seq<Seq<char>>,
    warnings_after: Seq<Seq<char>>,
    f: ReassemblyFailure,
) -> bool {
    exists|e: Seq<char>|
        is_reassembly_error(e, f) && warnings_after == with_warning(
            warnings_before,
            reassembly_warning(e),
        )
}

pub open spec fn frame_view(frame: Result<BleTransportChunk, String>) -> Result<ChunkView, Seq<char>> {
    match frame {
        Ok(c) => Ok(c@),
        Err(e) => Err(e@),
    }
}

/// What taking in one received frame (a decoded chunk, or the decoder's
/// error) does: a malformed frame is noted and changes nothing else; a chunk
/// is taken in as [`chunk_ingested`] says.
pub open spec fn frame_ingested(
    before: Map<Seq<char>, Seq<ChunkView>>,
    after: Map<Seq<char>, Seq<ChunkView>>,
    warnings_before: Seq<Seq<char>>,
    warnings_after: Seq<Seq<char>>,
    frame: Result<ChunkView, Seq<char>>,
    r: Option<Seq<u8>>,
) -> bool {
    match frame {
        Err(error) => {
            &&& after == before
            &&& r is None
            &&& warnings_after == with_warning(warnings_before, malformed_frame_warning(error))
        },
        Ok(c) => chunk_ingested(before, after, warnings_before, warnings_after, c, r),
    }
}

pub open spec fn opt_bytes(r: Option<Vec<u8>>) -> Option<Seq<u8>> {
    match r {
        Some(v) => Some(v@),
        None => None,
    }
}

/// A peer that keeps streaming incomplete chunk sets cannot grow the
/// reassembly buffer past `BLE_MAX_INFLIGHT_MESSAGES` messages: taking in a
/// chunk never pushes a buffer within the cap beyond it.
pub proof fn lemma_inflight_bounded(
    before: Map<Seq<char>, Seq<ChunkView>>,
    after: Map<Seq<char>, Seq<ChunkView>>,
    warnings_before: Seq<Seq<char>>,
    warnings_after: Seq<Seq<char>>,
    c: ChunkView,
    r: Option<Seq<u8>>,
)
    requires
        before.dom().finite(),
        before.dom().len() <= BLE_MAX_INFLIGHT_MESSAGES,
        chunk_ingested(before, after, warnings_before, warnings_after, c, r),
    ensures
        after.dom().finite(),
        after.dom().len() <= BLE_MAX_INFLIGHT_MESSAGES,
{
    let id = c.message_id;
    if c.total != 0 && (before.dom().contains(id) || before.dom().len() < BLE_MAX_INFLIGHT_MESSAGES) {
        let prior = if before.dom().contains(id) {
            before[id]
        } else {
            Seq::empty()
        };
        let entry = merge_chunk(prior, c);
        if entry.len() % 65536 != c.total as int {
            assert(after.dom() =~= before.dom().insert(id));
        } else {
            assert(after.dom() =~= before.dom().remove(id));
        }
    }
}

impl View for InboundReassembly {
    type V = Map<Seq<char>, Seq<ChunkView>>;

    closed spec fn view(&self) -> Map<Seq<char>, Seq<ChunkView>> {
        pending_map(self.pending@)
    }
}

proof fn lemma_pending_map(s: Seq<PendingMessage>)
    requires
        unique_ids(s),
    ensures
        pending_map(s).dom() == pending_ids(s).to_set(),
        forall|i: int|
            0 <= i < s.len() ==> pending_map(s)[#[trigger] s[i].message_id@] == chunks_view(
                s[i].chunks@,
            ),
        pending_map(s).dom().len() == s.len(),
    decreases s.len(),
{
    if s.len() > 0 {
        let t = s.drop_last();
        assert(unique_ids(t));
        lemma_pending_map(t);
        let last = s.last().message_id@;
        assert(!pending_ids(t).to_set().contains(last)) by {
            if pending_ids(t).to_set().contains(last) {
                assert(pending_ids(t).contains(last));
                let k = choose|k: int| 0 <= k < pending_ids(t).len() && pending_ids(t)[k] == last;
                assert(s[k].message_id@ == s[s.len() - 1].message_id@);
            }
        }
        assert(pending_map(s).dom() =~= pending_ids(s).to_set()) by {
            assert forall|x| pending_map(s).dom().contains(x) <==> pending_ids(s).to_set().contains(x) by {
                if pending_ids(s).to_set().contains(x) {
                    assert(pending_ids(s).contains(x));
                    let k = choose|k: int| 0 <= k < pending_ids(s).len() && pending_ids(s)[k] == x;
                    if k < t.len() {
                        assert(pending_ids(t)[k] == x);
                        assert(pending_ids(t).contains(x));
                    }
                }
                if pending_map(t).dom().contains(x) {
                    assert(pending_ids(t).contains(x));
                    let k = choose|k: int| 0 <= k < pending_ids(t).len() && pending_ids(t)[k] == x;
                    assert(pending_ids(s)[k] == x);
                    assert(pending_ids(s).contains(x));
                }
                if x == last {
                    assert(pending_ids(s)[s.len() - 1] == x);
                    assert(pending_ids(s).contains(x));
                }
            }
        }
        assert forall|i: int| 0 <= i < s.len() implies pending_map(s)[#[trigger] s[i].message_id@]
            == chunks_view(s[i].chunks@) by {
            if i < s.len() - 1 {
                assert(t[i] == s[i]);
                assert(s[i].message_id@ != last);
            }
        }
    }
}

impl InboundReassembly {
    #[verifier::type_invariant]
    closed spec fn unique(self) -> bool {
        unique_ids(self.pending@)
    }

    pub fn new() -> (r: Self)
        ensures
            r@ == Map::<Seq<char>, Seq<ChunkView>>::empty(),
    {
        InboundReassembly { pending: Vec::new() }
    }

    /// Forget every partially received message.
    pub fn clear(&mut self)
        ensures
            final(self)@ == Map::<Seq<char>, Seq<ChunkView>>::empty(),
    {
        self.pending = Vec::new();
    }

    /// Number of partially received messages.
    pub fn len(&self) -> (n: usize)
        ensures
            self@.dom().finite(),
            n == self@.dom().len(),
    {
        proof {
            use_type_invariant(self);
            lemma_pending_map(self.pending@);
        }
        self.pending.len()
    }

    fn position(&self, id: &String) -> (r: Option<usize>)
        ensures
            match r {
                Some(i) => i < self.pending@.len() && self.pending@[i as int].message_id@ == id@,
                None => !self@.dom().contains(id@),
            },
    {
        proof {
            use_type_invariant(self);
            lemma_pending_map(self.pending@);
        }
        let mut i: usize = 0;
        while i < self.pending.len()
            invariant
                i <= self.pending@.len(),
                forall|k: int| 0 <= k < i ==> self.pending@[k].message_id@ != id@,
            decreases self.pending.len() - i,
        {
            if self.pending[i].message_id == *id {
                return Some(i);
            }
            i = i + 1;
        }
        proof {
            if pending_ids(self.pending@).to_set().contains(id@) {
                assert(pending_ids(self.pending@).contains(id@));
                let k = choose|k: int|
                    0 <= k < pending_ids(self.pending@).len() && pending_ids(self.pending@)[k]
                        == id@;
                assert(self.pending@[k].message_id@ == id@);
            }
        }
        None
    }

    /// Take in one received frame (already decoded from its JSON form, or the
    /// decoder's error). Returns the payload of a message once all its chunks
    /// have arrived and reassemble; malformed frames, refused new messages and
    /// failed reassemblies are noted in `warnings`.
    pub fn ingest_frame(
        &mut self,
        frame: Result<BleTransportChunk, String>,
        warnings: &mut Vec<String>,
    ) -> (r: Option<Vec<u8>>)
        ensures
            frame_ingested(
                old(self)@,
                final(self)@,
                strings_view(old(warnings)@),
                strings_view(final(warnings)@),
                frame_view(frame),
                opt_bytes(r),
            ),
            old(self)@.dom().finite(),
            final(self)@.dom().finite(),
            old(self)@.dom().len() <= BLE_MAX_INFLIGHT_MESSAGES ==> final(self)@.dom().len()
                <= BLE_MAX_INFLIGHT_MESSAGES,
    {
        proof {
            use_type_invariant(&*self);
            lemma_pending_map(self.pending@);
            assert(pending_ids(self.pending@).to_set().finite());
        }
        let ghost received = frame;
        let r = match frame {
            Err(error) => {
                let mut message = "Dropped malformed inbound BLE frame: ".to_owned();
                push_str(&mut message, error.as_str());
                push_warning_once(warnings, message);
                None
            },
            Ok(chunk) => self.ingest_chunk(chunk, warnings),
        };
        proof {
            if let Ok(chunk) = received {
                if old(self)@.dom().len() <= BLE_MAX_INFLIGHT_MESSAGES {
                    lemma_inflight_bounded(
                        old(self)@,
                        self@,
                        strings_view(old(warnings)@),
                        strings_view(warnings@),
                        chunk@,
                        opt_bytes(r),
                    );
                }
            }
        }
        r
    }

    fn ingest_chunk(&mut self, chunk: BleTransportChunk, warnings: &mut Vec<String>) -> (r: Option<
        Vec<u8>,
    >)
        ensures
            chunk_ingested(
                old(self)@,
                final(self)@,
                strings_view(old(warnings)@),
                strings_view(final(warnings)@),
                chunk@,
                opt_bytes(r),
            ),
    {
        proof {
            use_type_invariant(&*self);
            lemma_pending_map(self.pending@);
        }
        if chunk.total == 0 {
            return None;
        }
        let position = self.position(&chunk.message_id);
        if position.is_none() && self.len() >= BLE_MAX_INFLIGHT_MESSAGES {
            push_warning_once(
                warnings,
                "Too many incomplete inbound BLE messages; dropping new chunk.".to_owned(),
            );
            return None;
        }
        let total = chunk.total;
        let ghost old_map = self@;
        let ghost c = chunk@;
        let ghost id = c.message_id;
        let mut entry = match position {
            Some(i) => self.take_entry(i),
            None => {
                let fresh = PendingMessage { message_id: chunk.message_id.clone(), chunks: Vec::new() };
                assert(chunks_view(fresh.chunks@) =~= Seq::<ChunkView>::empty());
                fresh
            },
        };
        let ghost prior = if old_map.dom().contains(id) {
            old_map[id]
        } else {
            Seq::<ChunkView>::empty()
        };
        assert(entry.message_id@ == id);
        assert(chunks_view(entry.chunks@) == prior);
        assert(self@ == old_map.remove(id)) by {
            if position.is_none() {
                assert(old_map.remove(id) =~= old_map);
            }
        }
        merge_into(&mut entry.chunks, chunk);
        assert(chunks_view(entry.chunks@) == merge_chunk(prior, c));
        let r = self.store_or_complete(entry, total, warnings);
        proof {
            let e = merge_chunk(prior, c);
            if e.len() % 65536 != total as int {
                assert(old_map.remove(id).insert(id, e) =~= old_map.insert(id, e));
            } else {
                match reassemble(e) {
                    Err(f) => {
                        assert(reassembly_noted(
                            strings_view(old(warnings)@),
                            strings_view(warnings@),
                            f,
                        ));
                    },
                    Ok(bytes) => {},
                }
            }
        }
        r
    }

    /// Keep `entry` pending until it holds `total` chunks; then reassemble it.
    fn store_or_complete(&mut self, entry: PendingMessage, total: u16, warnings: &mut Vec<String>) -> (r:
        Option<Vec<u8>>)
        requires
            !old(self)@.dom().contains(entry.message_id@),
        ensures
            ({
                let e = chunks_view(entry.chunks@);
                let id = entry.message_id@;
                if e.len() % 65536 != total as int {
                    &&& final(self)@ == old(self)@.insert(id, e)
                    &&& r is None
                    &&& final(warnings)@ == old(warnings)@
                } else {
                    &&& final(self)@ == old(self)@
                    &&& match reassemble(e) {
                        Ok(bytes) => {
                            &&& r matches Some(v) && v@ == bytes
                            &&& final(warnings)@ == old(warnings)@
                        },
                        Err(f) => {
                            &&& r is None
                            &&& reassembly_noted(
                                strings_view(old(warnings)@),
                                strings_view(final(warnings)@),
                                f,
                            )
                        },
                    }
                }
            }),
    {
        let n = entry.chunks.len();
        assert(chunks_view(entry.chunks@).len() == n);
        assert((n as u16) as usize == n % 65536) by (bit_vector);
        if n as u16 != total {
            self.put_entry(entry);
            return None;
        }
        match reassemble_chunks(entry.chunks.as_slice()) {
            Ok(bytes) => Some(bytes),
            Err(error) => {
                let mut message = "Failed to reassemble received BLE chunks: ".to_owned();
                push_str(&mut message, error.as_str());
                let ghost before = strings_view(warnings@);
                push_warning_once(warnings, message);
                proof {
                    match reassemble(chunks_view(entry.chunks@)) {
                        Err(f) => {
                            assert(is_reassembly_error(error@, f));
                            assert(strings_view(warnings@) == with_warning(
                                before,
                                reassembly_warning(error@),
                            ));
                            assert(reassembly_noted(before, strings_view(warnings@), f));
                        },
                        Ok(_) => {},
                    }
                }
                None
            },
        }
    }

    /// Remove the pending message at `i`, handing it back.
    fn take_entry(&mut self, i: usize) -> (m: PendingMessage)
        requires
            i < old(self).pending@.len(),
        ensures
            m.message_id@ == old(self).pending@[i as int].message_id@,
            old(self)@.dom().contains(m.message_id@),
            chunks_view(m.chunks@) == old(self)@[m.message_id@],
            final(self)@ == old(self)@.remove(m.message_id@),
    {
        proof {
            use_type_invariant(&*self);
            lemma_pending_map(self.pending@);
        }
        let ghost before = self.pending@;
        let ghost old_map = self@;
        let mut pending: Vec<PendingMessage> = Vec::new();
        std::mem::swap(&mut pending, &mut self.pending);
        let m = pending.remove(i);
        proof {
            let after = pending@;
            assert(after =~= before.remove(i as int));
            assert(unique_ids(after)) by {
                assert forall|a: int, b: int|
                    0 <= a < after.len() && 0 <= b < after.len() && a != b implies after[a].message_id@
                    != after[b].message_id@ by {
                    let a2 = if a < i { a } else { a + 1 };
                    let b2 = if b < i { b } else { b + 1 };
                    assert(after[a] == before[a2]);
                    assert(after[b] == before[b2]);
                }
            }
            lemma_pending_map(after);
            assert(before[i as int] == m);
            assert(pending_ids(before)[i as int] == m.message_id@);
            assert(old_map.dom().contains(m.message_id@));
            assert forall|k: int| 0 <= k < after.len() implies after[k].message_id@
                != m.message_id@ && old_map.dom().contains(#[trigger] after[k].message_id@)
                && old_map[after[k].message_id@] == chunks_view(after[k].chunks@) by {
                let k2 = if k < i { k } else { k + 1 };
                assert(after[k] == before[k2]);
                assert(pending_ids(before)[k2] == before[k2].message_id@);
                assert(pending_ids(before).to_set().contains(before[k2].message_id@));
                assert(old_map[before[k2].message_id@] == chunks_view(before[k2].chunks@));
            }
            assert forall|x: Seq<char>| old_map.remove(m.message_id@).dom().contains(x) implies pending_ids(
                after,
            ).contains(x) by {
                assert(pending_ids(before).to_set().contains(x));
                assert(pending_ids(before).contains(x));
                let k2 = choose|k2: int| 0 <= k2 < pending_ids(before).len() && pending_ids(before)[k2] == x;
                assert(k2 != i);
                let k = if k2 < i { k2 } else { k2 - 1 };
                assert(after[k] == before[k2]);
                assert(pending_ids(after)[k] == x);
            }
            lemma_map_matches(after, old_map.remove(m.message_id@));
        }
        self.pending = pending;
        m
    }

    /// Record `m` as a pending message.
    fn put_entry(&mut self, m: PendingMessage)
        requires
            !old(self)@.dom().contains(m.message_id@),
        ensures
            final(self)@ == old(self)@.insert(m.message_id@, chunks_view(m.chunks@)),
    {
        proof {
            use_type_invariant(&*self);
            lemma_pending_map(self.pending@);
        }
        let ghost before = self.pending@;
        let ghost old_map = self@;
        proof {
            let after = before.push(m);
            assert(after.drop_last() =~= before);
            assert(unique_ids(after)) by {
                assert forall|i: int, j: int|
                    0 <= i < after.len() && 0 <= j < after.len() && i != j implies after[i].message_id@
                    != after[j].message_id@ by {
                    if i == before.len() && j < before.len() {
                        assert(before[j].message_id@ == pending_ids(before)[j]);
                        assert(pending_ids(before).to_set().contains(before[j].message_id@));
                    }
                    if j == before.len() && i < before.len() {
                        assert(before[i].message_id@ == pending_ids(before)[i]);
                        assert(pending_ids(before).to_set().contains(before[i].message_id@));
                    }
                }
            }
        }
        let mut pending: Vec<PendingMessage> = Vec::new();
        std::mem::swap(&mut pending, &mut self.pending);
        pending.push(m);
        self.pending = pending;
    }
}

/// The map a list of pending messages with distinct ids stands for is the one
/// with exactly those ids and chunk lists.
proof fn lemma_map_matches(s: Seq<PendingMessage>, m: Map<Seq<char>, Seq<ChunkView>>)
    requires
        unique_ids(s),
        forall|k: int| 0 <= k < s.len() ==> m.dom().contains(#[trigger] s[k].message_id@),
        forall|k: int| 0 <= k < s.len() ==> m[#[trigger] s[k].message_id@] == chunks_view(s[k].chunks@),
        forall|x: Seq<char>| m.dom().contains(x) ==> pending_ids(s).contains(x),
    ensures
        pending_map(s) == m,
{
    lemma_pending_map(s);
    assert forall|x: Seq<char>| pending_map(s).dom().contains(x) <==> m.dom().contains(x) by {
        if m.dom().contains(x) {
            assert(pending_ids(s).contains(x));
        }
        if pending_map(s).dom().contains(x) {
            assert(pending_ids(s).contains(x));
            let k = choose|k: int| 0 <= k < pending_ids(s).len() && pending_ids(s)[k] == x;
            assert(s[k].message_id@ == x);
        }
    }
    assert forall|x: Seq<char>| pending_map(s).dom().contains(x) implies pending_map(s)[x] == m[x] by {
        assert(pending_ids(s).contains(x));
        let k = choose|k: int| 0 <= k < pending_ids(s).len() && pending_ids(s)[k] == x;
        assert(s[k].message_id@ == x);
    }
    assert(pending_map(s) =~= m);
}

/// Replace the chunk with the same index as `c`, or append `c`.
fn merge_into(entry: &mut Vec<BleTransportChunk>, c: BleTransportChunk)
    ensures
        chunks_view(final(entry)@) == merge_chunk(chunks_view(old(entry)@), c@),
{
    let ghost before = chunks_view(entry@);
    let mut j: usize = 0;
    while j < entry.len()
        invariant
            j <= entry@.len(),
            before == chunks_view(entry@),
            before == chunks_view(old(entry)@),
            forall|k: int| 0 <= k < j ==> before[k].index != c@.index,
        decreases entry.len() - j,
    {
        if entry[j].index == c.index {
            proof {
                assert(before[j as int].index == c@.index);
                let w = choose|w: int|
                    0 <= w < before.len() && before[w].index == c@.index && forall|k: int|
                        0 <= k < w ==> before[k].index != c@.index;
                assert(before[w].index == c@.index && forall|k: int| 0 <= k < w ==> before[k].index != c@.index);
                assert(w == j) by {
                    if w < j {
                        assert(before[w].index != c@.index);
                    }
                    if w > j {
                        assert(before[j as int].index != c@.index);
                    }
                }
            }
            entry.set(j, c);
            assert(chunks_view(entry@) =~= before.update(j as int, c@));
            return ;
        }
        j = j + 1;
    }
    entry.push(c);
    assert(chunks_view(entry@) =~= before.push(c@));
}


/// No two of the chunks carry the same index.
pub open spec fn distinct_indices(e: Seq<ChunkView>) -> bool {
    forall|i: int, j: int| 0 <= i < j < e.len() ==> (#[trigger] e[i]).index != (#[trigger] e[j]).index
}

/// The pending entry that receiving `rs` in turn builds for one message
/// (before it completes): each chunk merged in with [`merge_chunk`].
pub open spec fn received_entry(rs: Seq<ChunkView>) -> Seq<ChunkView>
    decreases rs.len(),
{
    if rs.len() == 0 {
        Seq::empty()
    } else {
        merge_chunk(received_entry(rs.drop_last()), rs.last())
    }
}

/// Merging a chunk into an entry with distinct indices replaces the chunk of
/// the same index, if any, or adds it: the entry keeps one chunk per index,
/// holds the new chunk, and loses nothing of another index.
pub proof fn lemma_merge_chunk(e: Seq<ChunkView>, c: ChunkView)
    requires
        distinct_indices(e),
    ensures
        distinct_indices(merge_chunk(e, c)),
        merge_chunk(e, c).contains(c),
        forall|x: ChunkView| #[trigger] merge_chunk(e, c).contains(x) ==> x == c || (e.contains(x) && x.index != c.index),
        forall|x: ChunkView| #[trigger] e.contains(x) && x.index != c.index ==> merge_chunk(e, c).contains(x),
        merge_chunk(e, c).len() == if exists|j: int| 0 <= j < e.len() && e[j].index == c.index {
            e.len()
        } else {
            e.len() + 1
        },
{
    let m = merge_chunk(e, c);
    if exists|j: int| 0 <= j < e.len() && e[j].index == c.index {
        let w = choose|j: int| 0 <= j < e.len() && e[j].index == c.index;
        let j = choose|j: int|
            0 <= j < e.len() && e[j].index == c.index && forall|k: int| 0 <= k < j ==> e[k].index != c.index;
        assert(0 <= j < e.len() && e[j].index == c.index && forall|k: int| 0 <= k < j ==> e[k].index != c.index) by {
            if w > 0 {
                assert forall|k: int| 0 <= k < w implies e[k].index != c.index by {
                    assert(e[k].index != e[w].index);
                }
            }
        }
        assert(m == e.update(j, c));
        assert(m[j] == c);
        assert forall|x: ChunkView| #[trigger] m.contains(x) implies x == c || (e.contains(x) && x.index != c.index) by {
            let k = choose|k: int| 0 <= k < m.len() && m[k] == x;
            if k != j {
                assert(m[k] == e[k]);
                if k < j {
                    assert(e[k].index != e[j].index);
                } else {
                    assert(e[j].index != e[k].index);
                }
            }
        }
        assert forall|x: ChunkView| #[trigger] e.contains(x) && x.index != c.index implies m.contains(x) by {
            let k = choose|k: int| 0 <= k < e.len() && e[k] == x;
            assert(k != j);
            assert(m[k] == x);
        }
        assert forall|a: int, b: int| 0 <= a < b < m.len() implies (#[trigger] m[a]).index != (#[trigger] m[b]).index by {
            if a != j && b != j {
                assert(m[a] == e[a] && m[b] == e[b]);
            } else if a == j {
                assert(m[b] == e[b]);
                assert(e[j].index != e[b].index);
            } else {
                assert(m[a] == e[a]);
                assert(e[a].index != e[j].index);
            }
        }
    } else {
        assert(m == e.push(c));
        assert(m[e.len() as int] == c);
        assert forall|x: ChunkView| #[trigger] m.contains(x) implies x == c || (e.contains(x) && x.index != c.index) by {
            let k = choose|k: int| 0 <= k < m.len() && m[k] == x;
            if k < e.len() {
                assert(m[k] == e[k]);
            }
        }
        assert forall|x: ChunkView| #[trigger] e.contains(x) && x.index != c.index implies m.contains(x) by {
            let k = choose|k: int| 0 <= k < e.len() && e[k] == x;
            assert(m[k] == x);
        }
        assert forall|a: int, b: int| 0 <= a < b < m.len() implies (#[trigger] m[a]).index != (#[trigger] m[b]).index by {
            if b < e.len() {
                assert(m[a] == e[a] && m[b] == e[b]);
            } else {
                assert(m[a] == e[a]);
            }
        }
    }
}

/// Whatever order the chunks arrive in, and however often one is resent, the
/// entry holds one chunk per index received: the latest received with it.
pub proof fn lemma_received_entry(rs: Seq<ChunkView>)
    ensures
        distinct_indices(received_entry(rs)),
        forall|x: ChunkView| #[trigger] received_entry(rs).contains(x) ==> rs.contains(x),
        forall|i: int| 0 <= i < rs.len() ==> exists|j: int|
            0 <= j < received_entry(rs).len() && (#[trigger] received_entry(rs)[j]).index == (#[trigger] rs[i]).index,
        rs.len() > 0 ==> received_entry(rs).contains(rs.last()),
    decreases rs.len(),
{
    if rs.len() > 0 {
        let t = rs.drop_last();
        let c = rs.last();
        lemma_received_entry(t);
        let e = received_entry(t);
        lemma_merge_chunk(e, c);
        let m = received_entry(rs);
        assert forall|x: ChunkView| #[trigger] m.contains(x) implies rs.contains(x) by {
            if x == c {
                assert(rs[rs.len() - 1] == c);
            } else {
                assert(e.contains(x));
                assert(t.contains(x));
                let k = choose|k: int| 0 <= k < t.len() && t[k] == x;
                assert(rs[k] == x);
            }
        }
        assert forall|i: int| 0 <= i < rs.len() implies exists|j: int|
            0 <= j < m.len() && (#[trigger] m[j]).index == (#[trigger] rs[i]).index by {
            if i == rs.len() - 1 || rs[i].index == c.index {
                assert(m.contains(c));
                let j = choose|j: int| 0 <= j < m.len() && m[j] == c;
                assert(m[j].index == rs[i].index);
            } else {
                assert(rs[i] == t[i]);
                let j0 = choose|j: int| 0 <= j < e.len() && (#[trigger] e[j]).index == t[i].index;
                assert(e.contains(e[j0]));
                assert(m.contains(e[j0]));
                let j = choose|j: int| 0 <= j < m.len() && m[j] == e[j0];
                assert(m[j].index == rs[i].index);
            }
        }
    }
}

/// A resent chunk replaces the earlier one of its index instead of counting
/// twice, and arrival order does not matter: once the chunks received from a
/// chunk set that reassembles fill every index (the entry holds as many
/// chunks as the set), the entry reassembles to the same message.
pub proof fn lemma_resent_chunks_reassemble(cs: Seq<ChunkView>, rs: Seq<ChunkView>)
    requires
        reassemble(cs) is Ok,
        forall|i: int| 0 <= i < rs.len() ==> cs.contains(#[trigger] rs[i]),
        received_entry(rs).len() == cs.len(),
    ensures
        reassemble(received_entry(rs)) == reassemble(cs),
{
    let e = received_entry(rs);
    lemma_received_entry(rs);
    lemma_reassemble_characterized(cs);
    lemma_reassemble_characterized(e);
    let n = cs.len();
    // Every chunk of the entry is one of the set.
    assert forall|i: int| 0 <= i < e.len() implies exists|k: int| 0 <= k < n && #[trigger] e[i] == cs[k] by {
        assert(e.contains(e[i]));
        assert(rs.contains(e[i]));
        let r = choose|r: int| 0 <= r < rs.len() && rs[r] == e[i];
        assert(cs.contains(rs[r]));
    }
    assert(e.len() > 0);
    assert(is_complete_chunk_set(e)) by {
        let k0 = choose|k: int| 0 <= k < n && e[0] == cs[k];
        assert forall|i: int| 0 <= i < e.len() implies {
            &&& (#[trigger] e[i]).message_id == e[0].message_id
            &&& e[i].total == e[0].total
            &&& (e[i].index as int) < e.len()
            &&& b64url_decode(e[i].payload_b64) is Some
        } by {
            let k = choose|k: int| 0 <= k < n && e[i] == cs[k];
            assert(cs[k].message_id == cs[0].message_id);
        }
    }
    // The chunk of each index is the set's chunk of that index.
    assert forall|k: int| 0 <= k < n implies #[trigger] chunk_with_index(e, k) == chunk_with_index(cs, k) by {
        lemma_index_present(e, k);
        lemma_index_present(cs, k);
        let a = choose|i: int| 0 <= i < e.len() && e[i].index == k;
        let b = choose|i: int| 0 <= i < cs.len() && cs[i].index == k;
        let q = choose|q: int| 0 <= q < n && e[a] == cs[q];
        if q != b {
            if q < b {
                assert(cs[q].index != cs[b].index);
            } else {
                assert(cs[b].index != cs[q].index);
            }
        }
    }
    lemma_decoded_same(e, cs, 0);
}

/// In a complete chunk set every index below its length is carried.
proof fn lemma_index_present(s: Seq<ChunkView>, k: int)
    requires
        is_complete_chunk_set(s),
        0 <= k < s.len(),
    ensures
        exists|i: int| 0 <= i < s.len() && s[i].index == k,
{
    lemma_reassemble_characterized(s);
    let ss = sort_by_index(s);
    lemma_sort_len(s);
    lemma_sort_is_sorted_permutation(s);
    lemma_scan_ok_numbered(ss, s[0].message_id, s[0].total, 0);
    assert(ss[k].index == k);
    vstd::seq_lib::to_multiset_contains(ss, ss[k]);
    vstd::seq_lib::to_multiset_contains(s, ss[k]);
    assert(ss.contains(ss[k]));
    assert(s.contains(ss[k]));
}

proof fn lemma_decoded_same(a: Seq<ChunkView>, b: Seq<ChunkView>, k: int)
    requires
        a.len() == b.len(),
        0 <= k,
        forall|q: int| 0 <= q < b.len() ==> #[trigger] chunk_with_index(a, q) == chunk_with_index(b, q),
    ensures
        decoded_in_index_order(a, k) == decoded_in_index_order(b, k),
    decreases a.len() - k,
{
    if k < a.len() {
        lemma_decoded_same(a, b, k + 1);
        assert(chunk_with_index(a, k) == chunk_with_index(b, k));
    }
}


/// Taking in the next chunk `c` of a message whose pending entry was built
/// from `rs` (none pending when `rs` is empty) extends that entry to the one
/// built from `rs` then `c`; once it holds `c.total` chunks the message
/// leaves the buffer and, when it reassembles, is the result.
pub proof fn lemma_ingest_extends_entry(
    before: Map<Seq<char>, Seq<ChunkView>>,
    after: Map<Seq<char>, Seq<ChunkView>>,
    warnings_before: Seq<Seq<char>>,
    warnings_after: Seq<Seq<char>>,
    rs: Seq<ChunkView>,
    c: ChunkView,
    r: Option<Seq<u8>>,
)
    requires
        chunk_ingested(before, after, warnings_before, warnings_after, c, r),
        c.total != 0,
        if before.dom().contains(c.message_id) {
            before[c.message_id] == received_entry(rs)
        } else {
            rs.len() == 0 && before.dom().len() < BLE_MAX_INFLIGHT_MESSAGES
        },
    ensures
        ({
            let e = received_entry(rs.push(c));
            if e.len() % 65536 != c.total as int {
                &&& after == before.insert(c.message_id, e)
                &&& r is None
                &&& warnings_after == warnings_before
            } else {
                &&& after == before.remove(c.message_id)
                &&& reassemble(e) matches Ok(bytes) ==> (r == Some(bytes) && warnings_after
                    == warnings_before)
            }
        }),
{
    assert(rs.push(c).drop_last() =~= rs);
    if !before.dom().contains(c.message_id) {
        assert(received_entry(rs) =~= Seq::<ChunkView>::empty());
    }
}


/// `frames` were taken in one after another: `maps[k]`, `warnings[k]` before
/// frame `k`, `maps[k + 1]`, `warnings[k + 1]` after it, and `results[k]` what
/// it gave.
pub open spec fn batch_ingested(
    maps: Seq<Map<Seq<char>, Seq<ChunkView>>>,
    warnings: Seq<Seq<Seq<char>>>,
    frames: Seq<Result<ChunkView, Seq<char>>>,
    results: Seq<Option<Seq<u8>>>,
) -> bool {
    &&& maps.len() == frames.len() + 1
    &&& warnings.len() == frames.len() + 1
    &&& results.len() == frames.len()
    &&& forall|k: int|
        0 <= k < frames.len() ==> frame_ingested(
            #[trigger] maps[k],
            maps[k + 1],
            warnings[k],
            warnings[k + 1],
            frames[k],
            results[k],
        )
}

/// Over a whole batch of frames the buffer never holds more than
/// `BLE_MAX_INFLIGHT_MESSAGES` incomplete messages, if it did not before.
pub proof fn lemma_batch_inflight_bounded(
    maps: Seq<Map<Seq<char>, Seq<ChunkView>>>,
    warnings: Seq<Seq<Seq<char>>>,
    frames: Seq<Result<ChunkView, Seq<char>>>,
    results: Seq<Option<Seq<u8>>>,
)
    requires
        batch_ingested(maps, warnings, frames, results),
        maps[0].dom().finite(),
        maps[0].dom().len() <= BLE_MAX_INFLIGHT_MESSAGES,
    ensures
        forall|k: int|
            0 <= k < maps.len() ==> (#[trigger] maps[k]).dom().finite() && maps[k].dom().len()
                <= BLE_MAX_INFLIGHT_MESSAGES,
{
    assert forall|k: int| 0 <= k < maps.len() implies (#[trigger] maps[k]).dom().finite()
        && maps[k].dom().len() <= BLE_MAX_INFLIGHT_MESSAGES by {
        lemma_batch_bounded_upto(maps, warnings, frames, results, k);
    }
}

proof fn lemma_batch_bounded_upto(
    maps: Seq<Map<Seq<char>, Seq<ChunkView>>>,
    warnings: Seq<Seq<Seq<char>>>,
    frames: Seq<Result<ChunkView, Seq<char>>>,
    results: Seq<Option<Seq<u8>>>,
    k: int,
)
    requires
        batch_ingested(maps, warnings, frames, results),
        maps[0].dom().finite(),
        maps[0].dom().len() <= BLE_MAX_INFLIGHT_MESSAGES,
        0 <= k < maps.len(),
    ensures
        maps[k].dom().finite(),
        maps[k].dom().len() <= BLE_MAX_INFLIGHT_MESSAGES,
    decreases k,
{
    if k > 0 {
        lemma_batch_bounded_upto(maps, warnings, frames, results, k - 1);
        assert(frame_ingested(maps[k - 1], maps[k], warnings[k - 1], warnings[k], frames[k - 1], results[k - 1]));
        if let Ok(c) = frames[k - 1] {
            lemma_inflight_bounded(maps[k - 1], maps[k], warnings[k - 1], warnings[k], c, results[k - 1]);
        }
    }
}

/// The chunks of a message, taken in as a batch of frames in any order and
/// with any chunk resent, complete it exactly once: with no entry for the
/// message before and room for it, while the chunks received do not yet fill
/// every index nothing is given and the entry grows; the frame that fills the
/// last index gives the message (what the chunk set reassembles to), the
/// entry leaves the buffer, and no warning is added along the way.
#[verifier::spinoff_prover]
#[verifier::rlimit(40)]
pub proof fn lemma_batch_resent_chunks_complete_once(
    maps: Seq<Map<Seq<char>, Seq<ChunkView>>>,
    warnings: Seq<Seq<Seq<char>>>,
    frames: Seq<Result<ChunkView, Seq<char>>>,
    results: Seq<Option<Seq<u8>>>,
    cs: Seq<ChunkView>,
    rs: Seq<ChunkView>,
)
    requires
        batch_ingested(maps, warnings, frames, results),
        reassemble(cs) is Ok,
        rs.len() == frames.len(),
        rs.len() > 0,
        forall|k: int| 0 <= k < rs.len() ==> frames[k] == Ok::<ChunkView, Seq<char>>(#[trigger] rs[k]),
        forall|k: int| 0 <= k < rs.len() ==> cs.contains(#[trigger] rs[k]),
        !maps[0].dom().contains(cs[0].message_id),
        maps[0].dom().len() < BLE_MAX_INFLIGHT_MESSAGES,
        forall|k: int| 1 <= k < rs.len() ==> (#[trigger] received_entry(rs.take(k))).len() < cs.len(),
        received_entry(rs).len() == cs.len(),
    ensures
        forall|k: int| 0 <= k < rs.len() - 1 ==> (#[trigger] results[k]) is None,
        reassemble(cs) matches Ok(bytes) && results[rs.len() - 1] == Some(bytes),
        maps[rs.len() as int] == maps[0],
        warnings[rs.len() as int] == warnings[0],
{
    let n = rs.len() as int;
    let id = cs[0].message_id;
    lemma_reassemble_characterized(cs);
    assert forall|k: int| 0 <= k < n implies (#[trigger] rs[k]).message_id == id && rs[k].total
        as int == cs.len() by {
        assert(cs.contains(rs[k]));
        let i = choose|i: int| 0 <= i < cs.len() && cs[i] == rs[k];
        assert(cs[i] == rs[k]);
    }
    lemma_batch_prefix(maps, warnings, frames, results, cs, rs, n - 1);
    let t = rs.take(n - 1);
    assert(t.push(rs[n - 1]) =~= rs);
    assert(rs.take(n) =~= rs);
    let e = received_entry(rs);
    assert(frame_ingested(maps[n - 1], maps[n], warnings[n - 1], warnings[n], frames[n - 1], results[n - 1]));
    if n - 1 == 0 {
        assert(t =~= Seq::<ChunkView>::empty());
    }
    lemma_ingest_extends_entry(
        maps[n - 1],
        maps[n],
        warnings[n - 1],
        warnings[n],
        t,
        rs[n - 1],
        results[n - 1],
    );
    assert(cs.len() <= 65535);
    assert(e.len() % 65536 == e.len());
    lemma_resent_chunks_reassemble(cs, rs);
    if n - 1 > 0 {
        assert(maps[n - 1].remove(id) =~= maps[0]);
    } else {
        assert(maps[0].remove(id) =~= maps[0]);
    }
}

/// Before frame `k` (0 < k < the batch length) the entry holds what the
/// first `k` chunks built, nothing was given and no warning added.
#[verifier::spinoff_prover]
#[verifier::rlimit(40)]
proof fn lemma_batch_prefix(
    maps: Seq<Map<Seq<char>, Seq<ChunkView>>>,
    warnings: Seq<Seq<Seq<char>>>,
    frames: Seq<Result<ChunkView, Seq<char>>>,
    results: Seq<Option<Seq<u8>>>,
    cs: Seq<ChunkView>,
    rs: Seq<ChunkView>,
    k: int,
)
    requires
        batch_ingested(maps, warnings, frames, results),
        rs.len() == frames.len(),
        forall|j: int| 0 <= j < rs.len() ==> frames[j] == Ok::<ChunkView, Seq<char>>(#[trigger] rs[j]),
        forall|j: int| 0 <= j < rs.len() ==> (#[trigger] rs[j]).message_id == cs[0].message_id
            && rs[j].total as int == cs.len(),
        0 < cs.len() <= 65535,
        !maps[0].dom().contains(cs[0].message_id),
        maps[0].dom().len() < BLE_MAX_INFLIGHT_MESSAGES,
        forall|j: int| 1 <= j < rs.len() ==> (#[trigger] received_entry(rs.take(j))).len() < cs.len(),
        0 <= k < rs.len(),
    ensures
        k > 0 ==> maps[k] == maps[0].insert(cs[0].message_id, received_entry(rs.take(k))),
        k == 0 ==> maps[k] == maps[0],
        warnings[k] == warnings[0],
        forall|j: int| 0 <= j < k ==> (#[trigger] results[j]) is None,
    decreases k,
{
    let id = cs[0].message_id;
    if k > 0 {
        lemma_batch_prefix(maps, warnings, frames, results, cs, rs, k - 1);
        let t = rs.take(k - 1);
        assert(t.push(rs[k - 1]) =~= rs.take(k));
        assert(frame_ingested(maps[k - 1], maps[k], warnings[k - 1], warnings[k], frames[k - 1], results[k - 1]));
        if k - 1 == 0 {
            assert(t =~= Seq::<ChunkView>::empty());
        } else {
            assert(maps[k - 1].dom().contains(id));
            assert(maps[k - 1][id] == received_entry(t));
        }
        assert(rs[k - 1].total != 0);
        assert(rs[k - 1].message_id == id);
        lemma_ingest_extends_entry(
            maps[k - 1],
            maps[k],
            warnings[k - 1],
            warnings[k],
            t,
            rs[k - 1],
            results[k - 1],
        );
        let e = received_entry(rs.take(k));
        assert(e.len() < cs.len());
        assert(e.len() % 65536 == e.len());
        if k - 1 > 0 {
            assert(maps[k - 1].insert(id, e) =~= maps[0].insert(id, e));
        }
    }
}

} // verus!
