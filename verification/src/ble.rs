//! Cross-platform BLE peripheral abstraction: the calculator GATT identifiers,
//! the `EVC:<kind>:<room>` advertisement name builder, the [`BlePeripheral`]
//! trait every platform backend implements, and the fail-loud fallback backend.
use vstd::prelude::*;
use crate::text::{
    ascii_lower, ascii_lower_vec, count_char, is_ws, push_char, push_str, replace_char,
    string_from_chars, trim, trim_chars, trim_end, trim_start,
};
use crate::utf8::{
    char_width, lemma_utf8_len_ascii, lemma_utf8_len_concat, lemma_utf8_len_push,
    lemma_utf8_len_same_widths, utf8_len,
};

verus! {

/// Service exposed by a guest peripheral.
pub const CALCULATOR_SERVICE_UUID: &'static str = "7c14f94a-77dd-4a65-9f04-6f7ac8d2a601";

/// Characteristic the host writes calculation events into (host -> guest).
pub const CALCULATOR_RX_CHARACTERISTIC_UUID: &'static str = "7c14f94a-77dd-4a65-9f04-6f7ac8d2a602";

/// Characteristic the guest notifies calculation events on (guest -> host).
pub const CALCULATOR_TX_CHARACTERISTIC_UUID: &'static str = "7c14f94a-77dd-4a65-9f04-6f7ac8d2a603";

/// Advertisement `local_name` prefix. Terse because a scan-response local name
/// has at most 29 usable bytes and anything longer is truncated on air.
pub const ADVERTISEMENT_PREFIX: &'static str = "EVC";

pub const JOIN_ADVERTISEMENT_KIND: &'static str = "J";

pub const ROOM_ADVERTISEMENT_KIND: &'static str = "R";

/// Hard ceiling every built advertisement name must stay under.
pub const MAX_ADVERTISEMENT_NAME_BYTES: usize = 26;

/// Bytes of the `EVC:<kind>:` framing around the room id.
pub const ADVERTISEMENT_FRAMING_BYTES: usize = 6;

/// Longest room id that still fits an advertisement name.
pub const MAX_ROOM_ID_BYTES: usize = MAX_ADVERTISEMENT_NAME_BYTES - ADVERTISEMENT_FRAMING_BYTES;

/// The room id as it travels on air: trimmed, lowercased, colons blanked.
pub open spec fn sanitized(room: Seq<char>) -> Seq<char> {
    replace_char(ascii_lower(trim(room)), ':', ' ')
}

pub open spec fn prefix_chars() -> Seq<char> {
    seq!['E', 'V', 'C']
}

/// `EVC:<kind>:<sanitized room>`.
pub open spec fn local_name(kind: Seq<char>, room: Seq<char>) -> Seq<char> {
    prefix_chars() + seq![':'] + kind + seq![':'] + sanitized(room)
}

/// Everything a backend needs to start advertising.
#[derive(Debug, Clone)]
pub struct PeripheralConfig {
    pub service_uuid: String,
    pub rx_characteristic_uuid: String,
    pub tx_characteristic_uuid: String,
    /// Fully-formatted BLE `local_name`, e.g. `EVC:J:r-abc123`.
    pub local_name: String,
}

/// `c` is the calculator service's advertising config for `EVC:<kind>:<room>`.
pub open spec fn advertises(c: PeripheralConfig, kind: Seq<char>, room: Seq<char>) -> bool {
    &&& c.local_name@ == local_name(kind, room)
    &&& c.service_uuid@ == CALCULATOR_SERVICE_UUID@
    &&& c.rx_characteristic_uuid@ == CALCULATOR_RX_CHARACTERISTIC_UUID@
    &&& c.tx_characteristic_uuid@ == CALCULATOR_TX_CHARACTERISTIC_UUID@
}

impl PeripheralConfig {
    /// Build a config for a guest joining `room_id` (`EVC:J:<room>`).
    pub fn join(room_id: &str) -> (c: Self)
        ensures
            c.local_name@ == local_name(seq!['J'], room_id@),
            c.service_uuid@ == CALCULATOR_SERVICE_UUID@,
            c.rx_characteristic_uuid@ == CALCULATOR_RX_CHARACTERISTIC_UUID@,
            c.tx_characteristic_uuid@ == CALCULATOR_TX_CHARACTERISTIC_UUID@,
    {
        Self::for_local_name(build_join_local_name(room_id))
    }

    /// Build a config for a host advertising `room_id` as a discoverable
    /// room (`EVC:R:<room>`).
    pub fn room(room_id: &str) -> (c: Self)
        ensures
            c.local_name@ == local_name(seq!['R'], room_id@),
            c.service_uuid@ == CALCULATOR_SERVICE_UUID@,
            c.rx_characteristic_uuid@ == CALCULATOR_RX_CHARACTERISTIC_UUID@,
            c.tx_characteristic_uuid@ == CALCULATOR_TX_CHARACTERISTIC_UUID@,
    {
        Self::for_local_name(build_room_local_name(room_id))
    }

    fn for_local_name(local_name: String) -> (c: Self)
        ensures
            c.local_name@ == local_name@,
            c.service_uuid@ == CALCULATOR_SERVICE_UUID@,
            c.rx_characteristic_uuid@ == CALCULATOR_RX_CHARACTERISTIC_UUID@,
            c.tx_characteristic_uuid@ == CALCULATOR_TX_CHARACTERISTIC_UUID@,
    {
        Self {
            service_uuid: CALCULATOR_SERVICE_UUID.to_owned(),
            rx_characteristic_uuid: CALCULATOR_RX_CHARACTERISTIC_UUID.to_owned(),
            tx_characteristic_uuid: CALCULATOR_TX_CHARACTERISTIC_UUID.to_owned(),
            local_name,
        }
    }
}

/// Build the `local_name` a guest advertises (`EVC:J:<room>`). Colons are
/// blanked out of the room id so the name always has exactly three fields,
/// and a room id of at most `MAX_ROOM_ID_BYTES` bytes keeps the name within
/// `MAX_ADVERTISEMENT_NAME_BYTES`.
pub fn build_join_local_name(room_id: &str) -> (name: String)
    ensures
        name@ == local_name(seq!['J'], room_id@),
        count_char(name@, ':') == 2,
        utf8_len(room_id@) <= MAX_ROOM_ID_BYTES ==> utf8_len(name@) <= MAX_ADVERTISEMENT_NAME_BYTES,
{
    proof {
        reveal_strlit("J");
    }
    build_local_name(JOIN_ADVERTISEMENT_KIND, room_id)
}

/// Build the `local_name` a host advertises as a room beacon (`EVC:R:<room>`).
pub fn build_room_local_name(room_id: &str) -> (name: String)
    ensures
        name@ == local_name(seq!['R'], room_id@),
        count_char(name@, ':') == 2,
        utf8_len(room_id@) <= MAX_ROOM_ID_BYTES ==> utf8_len(name@) <= MAX_ADVERTISEMENT_NAME_BYTES,
{
    proof {
        reveal_strlit("R");
    }
    build_local_name(ROOM_ADVERTISEMENT_KIND, room_id)
}

pub proof fn lemma_count_char_concat(a: Seq<char>, b: Seq<char>, c: char)
    ensures
        count_char(a + b, c) == count_char(a, c) + count_char(b, c),
    decreases b.len(),
{
    if b.len() == 0 {
        assert(a + b =~= a);
    } else {
        assert((a + b).drop_last() =~= a + b.drop_last());
        lemma_count_char_concat(a, b.drop_last(), c);
    }
}

pub proof fn lemma_count_char_absent(s: Seq<char>, c: char)
    requires
        !s.contains(c),
    ensures
        count_char(s, c) == 0,
    decreases s.len(),
{
    if s.len() > 0 {
        assert(s.drop_last().contains(c) ==> s.contains(c));
        lemma_count_char_absent(s.drop_last(), c);
    }
}

proof fn lemma_trim_utf8_le(s: Seq<char>)
    ensures
        utf8_len(trim_start(s)) <= utf8_len(s),
        utf8_len(trim(s)) <= utf8_len(s),
    decreases s.len(),
{
    if s.len() > 0 && is_ws(s[0]) {
        lemma_trim_utf8_le(s.drop_first());
    }
    lemma_trim_end_utf8_le(trim_start(s));
}

proof fn lemma_trim_end_utf8_le(s: Seq<char>)
    ensures
        utf8_len(trim_end(s)) <= utf8_len(s),
    decreases s.len(),
{
    if s.len() > 0 && is_ws(s.last()) {
        lemma_trim_end_utf8_le(s.drop_last());
        lemma_utf8_len_push(s.drop_last(), s.last());
        assert(s.drop_last().push(s.last()) =~= s);
    }
}

/// The sanitized room id takes no more bytes than the room id itself.
pub proof fn lemma_sanitized_utf8_le(room: Seq<char>)
    ensures
        utf8_len(sanitized(room)) <= utf8_len(room),
{
    lemma_trim_utf8_le(room);
    let t = trim(room);
    let s = sanitized(room);
    assert forall|i: int| 0 <= i < t.len() implies char_width(#[trigger] t[i]) == char_width(
        s[i],
    ) by {}
    lemma_utf8_len_same_widths(t, s);
}

/// A room id of at most `MAX_ROOM_ID_BYTES` bytes keeps an advertisement name
/// of any one-character ASCII kind within `MAX_ADVERTISEMENT_NAME_BYTES`.
pub proof fn lemma_local_name_fits(k: char, room: Seq<char>)
    requires
        k as u32 <= 0x7f,
        utf8_len(room) <= MAX_ROOM_ID_BYTES,
    ensures
        utf8_len(local_name(seq![k], room)) <= MAX_ADVERTISEMENT_NAME_BYTES,
{
    let head = seq!['E', 'V', 'C', ':', k, ':'];
    assert(local_name(seq![k], room) =~= head + sanitized(room));
    lemma_utf8_len_ascii(head);
    lemma_utf8_len_concat(head, sanitized(room));
    lemma_sanitized_utf8_le(room);
}

fn build_local_name(kind: &str, room_id: &str) -> (name: String)
    requires
        kind@.len() == 1,
        kind@[0] != ':',
        kind@[0] as u32 <= 0x7f,
    ensures
        name@ == local_name(kind@, room_id@),
        count_char(name@, ':') == 2,
        utf8_len(room_id@) <= MAX_ROOM_ID_BYTES ==> utf8_len(name@) <= MAX_ADVERTISEMENT_NAME_BYTES,
{
    let mut name = String::new();
    push_str(&mut name, ADVERTISEMENT_PREFIX);
    push_char(&mut name, ':');
    push_str(&mut name, kind);
    push_char(&mut name, ':');
    let field = sanitize_field(room_id);
    push_str(&mut name, field.as_str());
    proof {
        reveal_strlit("EVC");
        let head = prefix_chars() + seq![':'] + kind@ + seq![':'];
        assert(name@ =~= head + sanitized(room_id@));
        assert(head =~= seq!['E', 'V', 'C', ':', kind@[0], ':']);
        assert(count_char(seq!['E', 'V', 'C', ':', kind@[0], ':'], ':') == 2) by {
            reveal_with_fuel(count_char, 7);
        }
        lemma_count_char_absent(sanitized(room_id@), ':');
        lemma_count_char_concat(head, sanitized(room_id@), ':');
        lemma_utf8_len_ascii(head);
        lemma_utf8_len_concat(head, sanitized(room_id@));
        lemma_sanitized_utf8_le(room_id@);
    }
    name
}

/// Trim, lowercase, and blank out colons so the id cannot break framing.
pub fn sanitize_field(value: &str) -> (s: String)
    ensures
        s@ == sanitized(value@),
        !s@.contains(':'),
{
    let trimmed = trim_chars(value);
    let lower = ascii_lower_vec(&trimmed);
    let mut out: Vec<char> = Vec::new();
    let mut i: usize = 0;
    while i < lower.len()
        invariant
            i <= lower.len(),
            out@ == replace_char(lower@.subrange(0, i as int), ':', ' '),
        decreases lower.len() - i,
    {
        let c = lower[i];
        if c == ':' {
            out.push(' ');
        } else {
            out.push(c);
        }
        i = i + 1;
        assert(out@ =~= replace_char(lower@.subrange(0, i as int), ':', ' '));
    }
    assert(lower@.subrange(0, lower@.len() as int) =~= lower@);
    let s = string_from_chars(&out);
    assert(!s@.contains(':')) by {
        if s@.contains(':') {
            let k = choose|k: int| 0 <= k < s@.len() && s@[k] == ':';
            assert(s@[k] == ':');
        }
    }
    s
}

/// A platform BLE peripheral (guest advertising / GATT server). Backends are
/// single-owner and drive their own serial execution context internally.
pub trait BlePeripheral: Send {
    /// Which native backend is active.
    fn platform(&self) -> &'static str;

    /// Whether this platform can actually advertise a GATT peripheral.
    fn is_supported(&self) -> bool;

    /// Begin advertising + exposing the calculator GATT service. Calling it
    /// again replaces the advertised config.
    fn start_advertising(&mut self, config: &PeripheralConfig) -> Result<(), String>;

    /// Stop advertising and tear down the GATT service.
    fn stop(&mut self) -> Result<(), String>;

    fn is_advertising(&self) -> bool;

    /// Drain calculation-event frames written by a connected host since the
    /// last call.
    fn take_inbound(&mut self) -> Vec<Vec<u8>>;

    /// Send each frame to the subscribed host; returns how many were handed
    /// to the platform for delivery.
    fn notify(&mut self, frames: &[Vec<u8>]) -> Result<usize, String>;

    /// Whether a host is currently subscribed to the TX characteristic.
    fn has_subscriber(&self) -> bool;

    /// Drain the most recent asynchronous backend error, if any.
    fn take_last_error(&mut self) -> (r: Option<String>)
        default_ensures
            r is None,
    {
        None
    }

    /// The subscribed host's maximum notification size, once known.
    fn max_notify_frame_len(&self) -> (r: Option<usize>)
        default_ensures
            r is None,
    {
        None
    }
}

/// Fallback backend for platforms without a native peripheral implementation.
/// It fails loud instead of pretending the guest is discoverable.
pub struct StubPeripheral;

pub open spec fn stub_advertising_error() -> Seq<char> {
    "Guest BLE peripheral advertising is not implemented on this operating system."@
}

pub open spec fn stub_notify_error() -> Seq<char> {
    "Guest BLE notify (guest -> host) is not implemented on this operating system."@
}

impl StubPeripheral {
    pub fn new() -> (p: Self)
        ensures
            p == StubPeripheral,
    {
        StubPeripheral
    }
}

impl BlePeripheral for StubPeripheral {
    fn platform(&self) -> (p: &'static str)
        ensures
            p@ == "stub-unsupported"@,
    {
        "stub-unsupported"
    }

    fn is_supported(&self) -> (b: bool)
        ensures
            !b,
    {
        false
    }

    fn start_advertising(&mut self, config: &PeripheralConfig) -> (r: Result<(), String>)
        ensures
            r matches Err(e) && e@ == stub_advertising_error(),
    {
        Err("Guest BLE peripheral advertising is not implemented on this operating system.".to_owned())
    }

    fn stop(&mut self) -> (r: Result<(), String>)
        ensures
            r is Ok,
    {
        Ok(())
    }

    fn is_advertising(&self) -> (b: bool)
        ensures
            !b,
    {
        false
    }

    fn take_inbound(&mut self) -> (v: Vec<Vec<u8>>)
        ensures
            v@.len() == 0,
    {
        Vec::new()
    }

    fn notify(&mut self, frames: &[Vec<u8>]) -> (r: Result<usize, String>)
        ensures
            r matches Err(e) && e@ == stub_notify_error(),
    {
        Err("Guest BLE notify (guest -> host) is not implemented on this operating system.".to_owned())
    }

    fn has_subscriber(&self) -> (b: bool)
        ensures
            !b,
    {
        false
    }
}

} // verus!
