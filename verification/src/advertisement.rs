//! Discovery: parsing calculator advertisement names (current `EVC:<K>:<room>`
//! and legacy `EvolveCalc:<KIND>:<room>:<label>`), turning them into peer and
//! room summaries, and merging fresh scan results into the known lists.
use vstd::prelude::*;
use crate::ble::{local_name, sanitized};
use crate::clock::now_iso;
use crate::text::{
    ascii_upper, ascii_upper_vec, chars_eq, chars_of, eq_ignore_ascii_case, eq_ignore_case,
    find_chars, first_occurrence, is_ws, lemma_first_occurrence_absent, lemma_first_occurrence_is,
    lemma_trim_end_concat, lemma_trim_end_is_prefix, lemma_trim_of_trim_end, occurs_at, push_str,
    string_from_chars, string_from_range, trim,
    trim_bounds, trim_end, trim_start,
};

verus! {

/// A parsed calculator advertisement.
#[derive(Debug)]
pub struct BleAdvertisementPayload {
    pub kind: String,
    pub room_id: Option<String>,
    pub room_name: Option<String>,
    pub device_id: Option<String>,
    pub label: Option<String>,
}

pub struct AdvertisementView {
    pub kind: Seq<char>,
    pub room_id: Option<Seq<char>>,
    pub room_name: Option<Seq<char>>,
    pub device_id: Option<Seq<char>>,
    pub label: Option<Seq<char>>,
}

pub open spec fn opt_view(o: Option<String>) -> Option<Seq<char>> {
    match o {
        Some(s) => Some(s@),
        None => None,
    }
}

impl View for BleAdvertisementPayload {
    type V = AdvertisementView;

    open spec fn view(&self) -> AdvertisementView {
        AdvertisementView {
            kind: self.kind@,
            room_id: opt_view(self.room_id),
            room_name: opt_view(self.room_name),
            device_id: opt_view(self.device_id),
            label: opt_view(self.label),
        }
    }
}

/// A nearby guest asking to join, as shown in the host's discovery list.
#[derive(Debug)]
pub struct PeerSummary {
    pub id: String,
    pub label: String,
    pub session_role: String,
    pub ble_role: String,
    pub trust_status: String,
    pub connected: bool,
    pub last_seen_iso: String,
    /// Most recent RSSI in dBm, when the scan reported one.
    pub rssi: Option<i16>,
}

pub struct PeerView {
    pub id: Seq<char>,
    pub label: Seq<char>,
    pub session_role: Seq<char>,
    pub ble_role: Seq<char>,
    pub trust_status: Seq<char>,
    pub connected: bool,
    pub last_seen_iso: Seq<char>,
    pub rssi: Option<i16>,
}

impl View for PeerSummary {
    type V = PeerView;

    open spec fn view(&self) -> PeerView {
        PeerView {
            id: self.id@,
            label: self.label@,
            session_role: self.session_role@,
            ble_role: self.ble_role@,
            trust_status: self.trust_status@,
            connected: self.connected,
            last_seen_iso: self.last_seen_iso@,
            rssi: self.rssi,
        }
    }
}

/// A room a host is advertising, as shown in a guest's discovery list.
#[derive(Debug)]
pub struct RoomSummary {
    pub id: String,
    pub name: String,
    pub host_device_id: String,
    pub trust_status: String,
    pub joinable: bool,
    pub last_seen_iso: String,
    pub rssi: Option<i16>,
}

pub struct RoomView {
    pub id: Seq<char>,
    pub name: Seq<char>,
    pub host_device_id: Seq<char>,
    pub trust_status: Seq<char>,
    pub joinable: bool,
    pub last_seen_iso: Seq<char>,
    pub rssi: Option<i16>,
}

impl View for RoomSummary {
    type V = RoomView;

    open spec fn view(&self) -> RoomView {
        RoomView {
            id: self.id@,
            name: self.name@,
            host_device_id: self.host_device_id@,
            trust_status: self.trust_status@,
            joinable: self.joinable,
            last_seen_iso: self.last_seen_iso@,
            rssi: self.rssi,
        }
    }
}

pub fn clone_opt_string(o: &Option<String>) -> (r: Option<String>)
    ensures
        opt_view(r) == opt_view(*o),
{
    match o {
        Some(s) => Some(s.clone()),
        None => None,
    }
}

impl PeerSummary {
    pub fn duplicate(&self) -> (r: Self)
        ensures
            r@ == self@,
    {
        PeerSummary {
            id: self.id.clone(),
            label: self.label.clone(),
            session_role: self.session_role.clone(),
            ble_role: self.ble_role.clone(),
            trust_status: self.trust_status.clone(),
            connected: self.connected,
            last_seen_iso: self.last_seen_iso.clone(),
            rssi: self.rssi,
        }
    }
}

impl RoomSummary {
    pub fn duplicate(&self) -> (r: Self)
        ensures
            r@ == self@,
    {
        RoomSummary {
            id: self.id.clone(),
            name: self.name.clone(),
            host_device_id: self.host_device_id.clone(),
            trust_status: self.trust_status.clone(),
            joinable: self.joinable,
            last_seen_iso: self.last_seen_iso.clone(),
            rssi: self.rssi,
        }
    }
}

pub open spec fn evc_marker() -> Seq<char> {
    "EVC:"@
}

pub open spec fn legacy_marker() -> Seq<char> {
    "EvolveCalc:"@
}

/// The text from the first occurrence of `marker` to the end, without one
/// trailing `]`, trimmed.
pub open spec fn payload_after_marker(name: Seq<char>, marker: Seq<char>) -> Option<Seq<char>> {
    match first_occurrence(name, marker) {
        Some(start) => {
            let p = name.subrange(start, name.len() as int);
            let q = if p.len() > 0 && p.last() == ']' {
                p.drop_last()
            } else {
                p
            };
            Some(trim(q))
        },
        None => None,
    }
}

/// Where the calculator payload sits inside a scanned device name: it may be
/// the whole name, or wrapped as `<device name> [<payload>]`.
pub open spec fn extract_payload(name: Seq<char>) -> Option<Seq<char>> {
    match payload_after_marker(name, evc_marker()) {
        Some(p) => Some(p),
        None => payload_after_marker(name, legacy_marker()),
    }
}

/// `str::splitn(n, ':')`.
pub open spec fn splitn_colon(s: Seq<char>, n: nat) -> Seq<Seq<char>>
    decreases n,
{
    if n <= 1 {
        seq![s]
    } else {
        match first_occurrence(s, seq![':']) {
            Some(i) => seq![s.subrange(0, i)] + splitn_colon(
                s.subrange(i + 1, s.len() as int),
                (n - 1) as nat,
            ),
            None => seq![s],
        }
    }
}

pub open spec fn kind_name(k: Seq<char>) -> Seq<char> {
    if k == "J"@ {
        "JOIN"@
    } else if k == "R"@ {
        "ROOM"@
    } else {
        k
    }
}

/// The advertisement a scanned local name carries, if any.
pub open spec fn parse_local_name(name: Seq<char>) -> Option<AdvertisementView> {
    match extract_payload(name) {
        None => None,
        Some(p) => {
            let parts = splitn_colon(p, 4);
            if parts[0] != "EVC"@ && parts[0] != "EvolveCalc"@ {
                None
            } else if parts.len() < 3 || trim(parts[2]).len() == 0 {
                None
            } else {
                let label = if parts.len() >= 4 && trim(parts[3]).len() > 0 {
                    Some(trim(parts[3]))
                } else {
                    None
                };
                Some(
                    AdvertisementView {
                        kind: kind_name(trim(parts[1])),
                        room_id: Some(trim(parts[2])),
                        room_name: label,
                        device_id: None,
                        label: label,
                    },
                )
            }
        },
    }
}

/// A built advertisement name parses back to what it carries: its kind, and
/// the room id as it travels on air, trimmed (colons at its edges travel as
/// spaces); an id that is empty once trimmed carries no advertisement. This
/// holds whenever the on-air id does not end in `]` (a trailing `]` is taken
/// for the wrapping of a merged device name).
pub proof fn lemma_local_name_round_trip(k: char, room: Seq<char>)
    requires
        k == 'J' || k == 'R',
        sanitized(room).len() > 0 ==> sanitized(room).last() != ']',
    ensures
        parse_local_name(local_name(seq![k], room)) == if trim(sanitized(room)).len() == 0 {
            None
        } else {
            Some(
                AdvertisementView {
                    kind: kind_name(seq![k]),
                    room_id: Some(trim(sanitized(room))),
                    room_name: None,
                    device_id: None,
                    label: None,
                },
            )
        },
{
    let s = sanitized(room);
    let head = seq!['E', 'V', 'C', ':', k, ':'];
    let name = local_name(seq![k], room);
    assert(name =~= head + s);
    reveal_strlit("EVC:");
    reveal_strlit("EVC");
    reveal_strlit("EvolveCalc");
    assert(forall|i: int| 0 <= i < s.len() ==> #[trigger] s[i] != ':');
    // The marker opens the name.
    assert(name.subrange(0, 4) =~= evc_marker());
    lemma_first_occurrence_is(name, evc_marker(), 0);
    assert(name.subrange(0, name.len() as int) =~= name);
    if s.len() > 0 {
        assert(name.last() == s.last());
    } else {
        assert(name.last() == ':');
    }
    // The payload is the name without its trailing whitespace.
    let e = trim_end(s);
    lemma_trim_end_is_prefix(s);
    assert forall|i: int| 0 <= i < e.len() implies #[trigger] e[i] != ':' by {
        assert(e[i] == s.subrange(0, e.len() as int)[i]);
    }
    assert(trim_start(name) == name);
    lemma_trim_end_concat(head, s);
    let pay = head + e;
    assert(trim(name) == pay);
    assert(extract_payload(name) == Some(pay));
    // Three fields: `EVC`, the kind, the room id.
    let colon = seq![':'];
    assert(pay.subrange(3, 4) =~= colon);
    assert forall|j: int| 0 <= j < 3 implies !occurs_at(pay, colon, j) by {
        assert(pay.subrange(j, j + 1)[0] == pay[j]);
    }
    lemma_first_occurrence_is(pay, colon, 3);
    let rest = pay.subrange(4, pay.len() as int);
    assert(rest =~= seq![k, ':'] + e);
    assert(rest.subrange(1, 2) =~= colon);
    assert(!occurs_at(rest, colon, 0)) by {
        assert(rest.subrange(0, 1)[0] == k);
    }
    lemma_first_occurrence_is(rest, colon, 1);
    assert(rest.subrange(2, rest.len() as int) =~= e);
    assert forall|j: int| !occurs_at(e, colon, j) by {
        if occurs_at(e, colon, j) {
            assert(e.subrange(j, j + 1)[0] == e[j]);
        }
    }
    lemma_first_occurrence_absent(e, colon);
    assert(splitn_colon(e, 2) == seq![e]);
    assert(rest.subrange(0, 1) =~= seq![k]);
    assert(splitn_colon(rest, 3) =~= seq![seq![k]] + seq![e]);
    let parts = splitn_colon(pay, 4);
    assert(parts =~= seq![pay.subrange(0, 3), seq![k], e]);
    assert(parts[0] =~= "EVC"@);
    assert(trim_start(seq![k]) == seq![k]);
    assert(trim_end(seq![k]) == seq![k]);
    lemma_trim_of_trim_end(s);
    assert(trim(parts[2]) == trim(s));
}

/// Copy of `v[a..b]`.
pub fn copy_range(v: &Vec<char>, a: usize, b: usize) -> (r: Vec<char>)
    requires
        a <= b <= v.len(),
    ensures
        r@ == v@.subrange(a as int, b as int),
{
    let mut r: Vec<char> = Vec::new();
    let mut i = a;
    while i < b
        invariant
            a <= i <= b <= v.len(),
            r@ == v@.subrange(a as int, i as int),
        decreases b - i,
    {
        r.push(v[i]);
        i = i + 1;
        assert(r@ =~= v@.subrange(a as int, i as int));
    }
    r
}

fn payload_from(chars: &Vec<char>, start: usize) -> (p: String)
    requires
        start <= chars.len(),
    ensures
        ({
            let q = chars@.subrange(start as int, chars@.len() as int);
            let q = if q.len() > 0 && q.last() == ']' {
                q.drop_last()
            } else {
                q
            };
            p@ == trim(q)
        }),
{
    let mut end = chars.len();
    if end > start && chars[end - 1] == ']' {
        end = end - 1;
    }
    let part = copy_range(chars, start, end);
    proof {
        let q = chars@.subrange(start as int, chars@.len() as int);
        if q.len() > 0 && q.last() == ']' {
            assert(q.drop_last() =~= part@);
        } else {
            assert(q =~= part@);
        }
    }
    let (a, b) = trim_bounds(&part);
    string_from_range(&part, a, b)
}

/// Locate the calculator payload inside a scanned device name.
pub fn extract_advertisement_payload(name: &str) -> (r: Option<String>)
    ensures
        opt_view(r) == extract_payload(name@),
{
    let chars = chars_of(name);
    let marker = chars_of("EVC:");
    match find_chars(&chars, &marker) {
        Some(start) => {
            return Some(payload_from(&chars, start));
        },
        None => {},
    }
    let legacy = chars_of("EvolveCalc:");
    match find_chars(&chars, &legacy) {
        Some(start) => Some(payload_from(&chars, start)),
        None => None,
    }
}

/// `splitn(n, ':')` on a character sequence.
pub fn splitn_colon_exec(v: &Vec<char>, n: usize) -> (r: Vec<Vec<char>>)
    requires
        n >= 1,
    ensures
        r@.len() == splitn_colon(v@, n as nat).len(),
        forall|k: int| 0 <= k < r@.len() ==> (#[trigger] r@[k])@ == splitn_colon(v@, n as nat)[k],
    decreases n,
{
    if n <= 1 {
        let whole = copy_range(v, 0, v.len());
        assert(v@.subrange(0, v@.len() as int) =~= v@);
        let mut r: Vec<Vec<char>> = Vec::new();
        r.push(whole);
        return r;
    }
    let colon = vec![':'];
    assert(colon@ =~= seq![':']);
    match find_chars(v, &colon) {
        Some(i) => {
            assert(colon@.len() == 1);
            assert(occurs_at(v@, colon@, i as int));
            assert(i < v.len());
            let head = copy_range(v, 0, i);
            let tail = copy_range(v, i + 1, v.len());
            let rest = splitn_colon_exec(&tail, n - 1);
            let mut r: Vec<Vec<char>> = Vec::new();
            r.push(head);
            let mut k: usize = 0;
            while k < rest.len()
                invariant
                    k <= rest@.len(),
                    r@.len() == k + 1,
                    r@[0]@ == v@.subrange(0, i as int),
                    forall|j: int| 0 <= j < k ==> (#[trigger] r@[j + 1])@ == rest@[j]@,
                decreases rest.len() - k,
            {
                let item = copy_range(&rest[k], 0, rest[k].len());
                assert(rest@[k as int]@.subrange(0, rest@[k as int]@.len() as int) =~= rest@[k as int]@);
                r.push(item);
                k = k + 1;
            }
            proof {
                let spec_r = splitn_colon(v@, n as nat);
                assert(spec_r == seq![v@.subrange(0, i as int)] + splitn_colon(tail@, (n - 1) as nat));
                assert forall|j: int| 0 <= j < r@.len() implies (#[trigger] r@[j])@ == spec_r[j] by {
                    if j > 0 {
                        assert(r@[(j - 1) + 1]@ == rest@[j - 1]@);
                    }
                }
            }
            r
        },
        None => {
            let whole = copy_range(v, 0, v.len());
            assert(v@.subrange(0, v@.len() as int) =~= v@);
            let mut r: Vec<Vec<char>> = Vec::new();
            r.push(whole);
            r
        },
    }
}

fn trimmed(v: &Vec<char>) -> (t: Vec<char>)
    ensures
        t@ == trim(v@),
{
    let (a, b) = trim_bounds(v);
    copy_range(v, a, b)
}

/// Parse a scanned local name in either advertisement generation. The
/// payload may be embedded in a merged `<device name> [<payload>]` name.
pub fn parse_local_name_advertisement(name: &str) -> (r: Option<BleAdvertisementPayload>)
    ensures
        match parse_local_name(name@) {
            Some(a) => r matches Some(p) && p@ == a,
            None => r is None,
        },
{
    let payload = match extract_advertisement_payload(name) {
        Some(p) => p,
        None => return None,
    };
    let chars = chars_of(payload.as_str());
    let parts = splitn_colon_exec(&chars, 4);
    let ghost spec_parts = splitn_colon(payload@, 4);
    assert(spec_parts.len() >= 1) by {
        reveal_with_fuel(splitn_colon, 2);
    }
    let prefix_ok = chars_eq(&parts[0], &chars_of("EVC")) || chars_eq(
        &parts[0],
        &chars_of("EvolveCalc"),
    );
    if !prefix_ok {
        return None;
    }
    if parts.len() < 3 {
        return None;
    }
    let room = trimmed(&parts[2]);
    if room.len() == 0 {
        return None;
    }
    let k = trimmed(&parts[1]);
    let kind = if chars_eq(&k, &chars_of("J")) {
        "JOIN".to_owned()
    } else if chars_eq(&k, &chars_of("R")) {
        "ROOM".to_owned()
    } else {
        string_from_chars(&k)
    };
    let label: Option<String> = if parts.len() >= 4 {
        let l = trimmed(&parts[3]);
        if l.len() > 0 {
            Some(string_from_chars(&l))
        } else {
            None
        }
    } else {
        None
    };
    let room_name = clone_opt_string(&label);
    Some(
        BleAdvertisementPayload {
            kind,
            room_id: Some(string_from_chars(&room)),
            room_name,
            device_id: None,
            label,
        },
    )
}

/// The calculator advertisement of a scanned device: the service-data payload
/// when the device carried a decodable one, else its parsed local name.
pub fn parse_calculator_advertisement(
    service_payload: Option<BleAdvertisementPayload>,
    local_name: Option<String>,
) -> (r: Option<BleAdvertisementPayload>)
    ensures
        match service_payload {
            Some(p) => r matches Some(q) && q@ == p@,
            None => match local_name {
                Some(n) => match parse_local_name(n@) {
                    Some(a) => r matches Some(q) && q@ == a,
                    None => r is None,
                },
                None => r is None,
            },
        },
{
    match service_payload {
        Some(p) => Some(p),
        None => match local_name {
            Some(n) => parse_local_name_advertisement(n.as_str()),
            None => None,
        },
    }
}

/// A scan result is a join request the host should list.
pub open spec fn accepts_join(ad: AdvertisementView, room_filter: Option<Seq<char>>) -> bool {
    &&& ascii_upper(ad.kind) == "JOIN"@
    &&& match (room_filter, ad.room_id) {
        (Some(expected), Some(advertised)) => eq_ignore_ascii_case(trim(expected), trim(advertised)),
        _ => true,
    }
}

pub open spec fn guest_label(address: Seq<char>, ad: AdvertisementView) -> Seq<char> {
    match ad.label {
        Some(l) => l,
        None => match ad.device_id {
            Some(d) => d,
            None => "Evolve Calc Guest "@ + address,
        },
    }
}

pub open spec fn peer_id_for(address: Seq<char>) -> Seq<char> {
    "ble-"@ + address
}

/// The discovery peer a join request yields, seen at `now`.
pub open spec fn join_peer(
    address: Seq<char>,
    ad: AdvertisementView,
    rssi: Option<i16>,
    room_filter: Option<Seq<char>>,
    now: Seq<char>,
) -> Option<PeerView> {
    if accepts_join(ad, room_filter) {
        Some(
            PeerView {
                id: peer_id_for(address),
                label: guest_label(address, ad),
                session_role: "guest"@,
                ble_role: "peripheral"@,
                trust_status: "pending"@,
                connected: false,
                last_seen_iso: now,
                rssi,
            },
        )
    } else {
        None
    }
}

pub open spec fn peer_opt_view(o: Option<PeerSummary>) -> Option<PeerView> {
    match o {
        Some(p) => Some(p@),
        None => None,
    }
}

pub open spec fn filter_view(f: Option<&str>) -> Option<Seq<char>> {
    match f {
        Some(f) => Some(f@),
        None => None,
    }
}

/// Turn a join-request advertisement into a discovery peer seen at `now`
/// (see [`join_peer`]).
pub fn join_request_peer(
    address: String,
    payload: BleAdvertisementPayload,
    rssi: Option<i16>,
    room_filter: Option<&str>,
    now: &str,
) -> (r: Option<PeerSummary>)
    ensures
        peer_opt_view(r) == join_peer(address@, payload@, rssi, filter_view(room_filter), now@),
{
    let kind = ascii_upper_vec(&chars_of(payload.kind.as_str()));
    if !chars_eq(&kind, &chars_of("JOIN")) {
        return None;
    }
    match (room_filter, &payload.room_id) {
        (Some(expected), Some(advertised)) => {
            let e = trimmed(&chars_of(expected));
            let a = trimmed(&chars_of(advertised.as_str()));
            if !eq_ignore_case(&e, &a) {
                return None;
            }
        },
        _ => {},
    }
    let ghost ad = payload@;
    let mut id = "ble-".to_owned();
    push_str(&mut id, address.as_str());
    let label = match payload.label {
        Some(l) => l,
        None => match payload.device_id {
            Some(d) => d,
            None => {
                let mut l = "Evolve Calc Guest ".to_owned();
                push_str(&mut l, address.as_str());
                l
            },
        },
    };
    assert(label@ == guest_label(address@, ad));
    Some(
        PeerSummary {
            id,
            label,
            session_role: "guest".to_owned(),
            ble_role: "peripheral".to_owned(),
            trust_status: "pending".to_owned(),
            connected: false,
            last_seen_iso: now.to_owned(),
            rssi,
        },
    )
}

/// Turn a join-request advertisement into a discovery peer, seen now. Kinds
/// other than JOIN, and requests for a room other than `room_filter` (compared
/// ignoring case and surrounding whitespace), are dropped.
pub fn peer_from_advertisement(
    address: String,
    payload: BleAdvertisementPayload,
    rssi: Option<i16>,
    room_filter: Option<&str>,
) -> (r: Option<PeerSummary>)
    ensures
        exists|now: Seq<char>|
            peer_opt_view(r) == join_peer(address@, payload@, rssi, filter_view(room_filter), now),
{
    let now = now_iso();
    join_request_peer(address, payload, rssi, room_filter, now.as_str())
}

/// A scan result is a room beacon a guest should list.
pub open spec fn accepts_room(ad: AdvertisementView) -> bool {
    ascii_upper(ad.kind) == "ROOM"@ && ad.room_id is Some
}

pub open spec fn room_display_name(ad: AdvertisementView) -> Seq<char> {
    match ad.room_name {
        Some(n) => n,
        None => match ad.label {
            Some(l) => l,
            None => "Room "@ + ad.room_id.unwrap(),
        },
    }
}

pub open spec fn room_host_id(address: Seq<char>, ad: AdvertisementView) -> Seq<char> {
    match ad.device_id {
        Some(d) => d,
        None => peer_id_for(address),
    }
}

/// The discovered room a room beacon yields, seen at `now`.
pub open spec fn beacon_room(
    address: Seq<char>,
    ad: AdvertisementView,
    rssi: Option<i16>,
    now: Seq<char>,
) -> Option<RoomView> {
    if accepts_room(ad) {
        Some(
            RoomView {
                id: ad.room_id.unwrap(),
                name: room_display_name(ad),
                host_device_id: room_host_id(address, ad),
                trust_status: "pending"@,
                joinable: true,
                last_seen_iso: now,
                rssi,
            },
        )
    } else {
        None
    }
}

pub open spec fn room_opt_view(o: Option<RoomSummary>) -> Option<RoomView> {
    match o {
        Some(r) => Some(r@),
        None => None,
    }
}

/// Turn a room-beacon advertisement into a room seen at `now` (see [`beacon_room`]).
pub fn room_beacon(address: String, payload: BleAdvertisementPayload, rssi: Option<i16>, now: &str) -> (r:
    Option<RoomSummary>)
    ensures
        room_opt_view(r) == beacon_room(address@, payload@, rssi, now@),
{
    let kind = ascii_upper_vec(&chars_of(payload.kind.as_str()));
    if !chars_eq(&kind, &chars_of("ROOM")) {
        return None;
    }
    let ghost ad = payload@;
    let room_id = match payload.room_id {
        Some(id) => id,
        None => return None,
    };
    let name = match payload.room_name {
        Some(n) => n,
        None => match payload.label {
            Some(l) => l,
            None => {
                let mut n = "Room ".to_owned();
                push_str(&mut n, room_id.as_str());
                n
            },
        },
    };
    let host_device_id = match payload.device_id {
        Some(d) => d,
        None => {
            let mut h = "ble-".to_owned();
            push_str(&mut h, address.as_str());
            h
        },
    };
    assert(name@ == room_display_name(ad));
    assert(host_device_id@ == room_host_id(address@, ad));
    Some(
        RoomSummary {
            id: room_id,
            name,
            host_device_id,
            trust_status: "pending".to_owned(),
            joinable: true,
            last_seen_iso: now.to_owned(),
            rssi,
        },
    )
}

/// Turn a room-beacon advertisement into a discovered room, seen now. Kinds
/// other than ROOM, and beacons without a room id, are dropped.
pub fn room_from_advertisement(
    address: String,
    payload: BleAdvertisementPayload,
    rssi: Option<i16>,
) -> (r: Option<RoomSummary>)
    ensures
        exists|now: Seq<char>| room_opt_view(r) == beacon_room(address@, payload@, rssi, now),
{
    let now = now_iso();
    room_beacon(address, payload, rssi, now.as_str())
}

/// Position of the first entry whose id is `id`.
pub open spec fn find_by_id(ids: Seq<Seq<char>>, id: Seq<char>) -> Option<int>
    decreases ids.len(),
{
    if ids.len() == 0 {
        None
    } else if ids[0] == id {
        Some(0)
    } else {
        match find_by_id(ids.drop_first(), id) {
            Some(j) => Some(j + 1),
            None => None,
        }
    }
}

pub proof fn lemma_find_by_id(ids: Seq<Seq<char>>, id: Seq<char>, k: int)
    requires
        0 <= k <= ids.len(),
        forall|j: int| 0 <= j < k ==> ids[j] != id,
    ensures
        k < ids.len() && ids[k] == id ==> find_by_id(ids, id) == Some(k),
        k == ids.len() ==> find_by_id(ids, id) is None,
    decreases k,
{
    if k > 0 {
        let t = ids.drop_first();
        assert forall|j: int| 0 <= j < k - 1 implies t[j] != id by {
            assert(t[j] == ids[j + 1]);
        }
        lemma_find_by_id(t, id, k - 1);
    } else if ids.len() > 0 {
    }
}

pub open spec fn peer_ids(s: Seq<PeerView>) -> Seq<Seq<char>> {
    s.map_values(|p: PeerView| p.id)
}

pub open spec fn room_ids(s: Seq<RoomView>) -> Seq<Seq<char>> {
    s.map_values(|r: RoomView| r.id)
}

/// Fold one freshly scanned peer into the list: an entry with the same id
/// takes the new label, last-seen time and RSSI but keeps its role,
/// connection and trust; an unknown id is appended.
pub open spec fn merge_peer(merged: Seq<PeerView>, p: PeerView) -> Seq<PeerView> {
    match find_by_id(peer_ids(merged), p.id) {
        Some(j) => merged.update(
            j,
            PeerView { label: p.label, last_seen_iso: p.last_seen_iso, rssi: p.rssi, ..merged[j] },
        ),
        None => merged.push(p),
    }
}

pub open spec fn merge_peers(existing: Seq<PeerView>, discovered: Seq<PeerView>) -> Seq<PeerView>
    decreases discovered.len(),
{
    if discovered.len() == 0 {
        existing
    } else {
        merge_peer(merge_peers(existing, discovered.drop_last()), discovered.last())
    }
}

/// A peer keeps its identity, roles, connection and trust.
pub open spec fn same_link(a: PeerView, b: PeerView) -> bool {
    &&& a.id == b.id
    &&& a.session_role == b.session_role
    &&& a.ble_role == b.ble_role
    &&& a.connected == b.connected
    &&& a.trust_status == b.trust_status
}

/// A re-scan never drops a known peer nor changes its identity, roles,
/// connection or trust: only its label, last-seen time and RSSI are refreshed.
pub proof fn lemma_merge_keeps_link(existing: Seq<PeerView>, discovered: Seq<PeerView>, i: int)
    requires
        0 <= i < existing.len(),
    ensures
        i < merge_peers(existing, discovered).len(),
        same_link(merge_peers(existing, discovered)[i], existing[i]),
    decreases discovered.len(),
{
    if discovered.len() > 0 {
        lemma_merge_keeps_link(existing, discovered.drop_last(), i);
        let m = merge_peers(existing, discovered.drop_last());
        let p = discovered.last();
        lemma_find_by_id_in_range(peer_ids(m), p.id);
        assert(merge_peers(existing, discovered) == merge_peer(m, p));
    }
}

/// A found position is in range and holds the id.
pub proof fn lemma_find_by_id_in_range(ids: Seq<Seq<char>>, id: Seq<char>)
    ensures
        find_by_id(ids, id) matches Some(j) ==> 0 <= j < ids.len() && ids[j] == id,
    decreases ids.len(),
{
    if ids.len() > 0 && ids[0] != id {
        lemma_find_by_id_in_range(ids.drop_first(), id);
    }
}

/// An id that is not found occurs nowhere.
pub proof fn lemma_find_by_id_none(ids: Seq<Seq<char>>, id: Seq<char>)
    ensures
        find_by_id(ids, id) is None ==> forall|k: int| 0 <= k < ids.len() ==> ids[k] != id,
    decreases ids.len(),
{
    if ids.len() > 0 && ids[0] != id {
        lemma_find_by_id_none(ids.drop_first(), id);
        if find_by_id(ids, id) is None {
            assert forall|k: int| 0 <= k < ids.len() implies ids[k] != id by {
                if k > 0 {
                    assert(ids[k] == ids.drop_first()[k - 1]);
                }
            }
        }
    }
}

proof fn lemma_merge_room_facts(m: Seq<RoomView>, r: RoomView)
    ensures
        merge_room(m, r).len() >= m.len(),
        merge_room(m, r).contains(r),
        forall|k: int| 0 <= k < m.len() ==> (#[trigger] merge_room(m, r)[k]).id == m[k].id,
        forall|k: int| 0 <= k < m.len() && m[k].id != r.id ==> #[trigger] merge_room(m, r)[k] == m[k],
        forall|k: int|
            0 <= k < merge_room(m, r).len() ==> (k < m.len() && #[trigger] merge_room(m, r)[k] == m[k])
                || merge_room(m, r)[k] == r,
        merge_room(m, r).len() <= m.len() + 1,
{
    let res = merge_room(m, r);
    lemma_find_by_id_in_range(room_ids(m), r.id);
    lemma_find_by_id_none(room_ids(m), r.id);
    match find_by_id(room_ids(m), r.id) {
        Some(j) => {
            assert(room_ids(m)[j] == m[j].id);
            assert(res[j] == r);
        },
        None => {
            assert(res[m.len() as int] == r);
            assert forall|k: int| 0 <= k < m.len() && m[k].id != r.id implies #[trigger] res[k] == m[k] by {}
        },
    }
}

/// A room scan never loses a room: every room already listed stays at its
/// place under its id, and every room id scanned ends up listed, with the
/// latest scan of each id listed as it was scanned; nothing else is added,
/// every entry past the known ones being a scanned room.
#[verifier::rlimit(40)]
pub proof fn lemma_merge_rooms_lists_every_room(existing: Seq<RoomView>, discovered: Seq<RoomView>)
    ensures
        merge_rooms(existing, discovered).len() >= existing.len(),
        forall|k: int|
            0 <= k < existing.len() ==> (#[trigger] merge_rooms(existing, discovered)[k]).id
                == existing[k].id,
        forall|i: int|
            0 <= i < discovered.len() ==> exists|j: int|
                0 <= j < merge_rooms(existing, discovered).len() && (#[trigger] merge_rooms(
                    existing,
                    discovered,
                )[j]).id == (#[trigger] discovered[i]).id,
        forall|i: int|
            0 <= i < discovered.len() && (forall|j: int| i < j < discovered.len() ==> discovered[j].id
                != discovered[i].id) ==> merge_rooms(existing, discovered).contains(
                #[trigger] discovered[i],
            ),
        merge_rooms(existing, discovered).len() <= existing.len() + discovered.len(),
        forall|j: int|
            existing.len() <= j < merge_rooms(existing, discovered).len() ==> exists|i: int|
                0 <= i < discovered.len() && (#[trigger] merge_rooms(existing, discovered)[j])
                    == discovered[i],
    decreases discovered.len(),
{
    if discovered.len() > 0 {
        let d = discovered;
        let dp = d.drop_last();
        let r = d.last();
        lemma_merge_rooms_lists_every_room(existing, dp);
        let m = merge_rooms(existing, dp);
        let res = merge_rooms(existing, d);
        assert(res == merge_room(m, r));
        lemma_merge_room_facts(m, r);
        assert forall|k: int| 0 <= k < existing.len() implies (#[trigger] res[k]).id == existing[k].id by {
            assert(m[k].id == existing[k].id);
            assert(merge_room(m, r)[k].id == m[k].id);
        }
        assert forall|i: int| 0 <= i < d.len() implies exists|j: int|
            0 <= j < res.len() && (#[trigger] res[j]).id == (#[trigger] d[i]).id by {
            if i == d.len() - 1 {
                let j = choose|j: int| 0 <= j < res.len() && res[j] == r;
                assert(res[j].id == d[i].id);
            } else {
                assert(dp[i] == d[i]);
                let j = choose|j: int| 0 <= j < m.len() && (#[trigger] m[j]).id == dp[i].id;
                assert(merge_room(m, r)[j].id == m[j].id);
                assert(res[j].id == d[i].id);
            }
        }
        assert forall|i: int|
            0 <= i < d.len() && (forall|j: int| i < j < d.len() ==> d[j].id != d[i].id) implies res.contains(
            #[trigger] d[i],
        ) by {
            if i < d.len() - 1 {
                assert(dp[i] == d[i]);
                assert(d[d.len() - 1].id != d[i].id);
                assert forall|j: int| i < j < dp.len() implies dp[j].id != dp[i].id by {
                    assert(dp[j] == d[j]);
                }
                assert(m.contains(dp[i]));
                let k = choose|k: int| 0 <= k < m.len() && m[k] == dp[i];
                assert(merge_room(m, r)[k] == m[k]);
                assert(res[k] == d[i]);
            }
        }
        assert forall|j: int| existing.len() <= j < res.len() implies exists|i: int|
            0 <= i < d.len() && (#[trigger] res[j]) == d[i] by {
            assert(merge_room(m, r)[j] == res[j]);
            if j < m.len() && res[j] == m[j] {
                let i = choose|i: int| 0 <= i < dp.len() && (#[trigger] m[j]) == dp[i];
                assert(d[i] == dp[i]);
            } else {
                assert(res[j] == d[d.len() - 1]);
            }
        }
    }
}

/// Fold one freshly scanned room into the list: an entry with the same id
/// takes every newly scanned field; an unknown id is appended.
pub open spec fn merge_room(merged: Seq<RoomView>, r: RoomView) -> Seq<RoomView> {
    match find_by_id(room_ids(merged), r.id) {
        Some(j) => merged.update(j, RoomView { id: merged[j].id, ..r }),
        None => merged.push(r),
    }
}

pub open spec fn merge_rooms(existing: Seq<RoomView>, discovered: Seq<RoomView>) -> Seq<RoomView>
    decreases discovered.len(),
{
    if discovered.len() == 0 {
        existing
    } else {
        merge_room(merge_rooms(existing, discovered.drop_last()), discovered.last())
    }
}

pub open spec fn peers_view(s: Seq<PeerSummary>) -> Seq<PeerView> {
    s.map_values(|p: PeerSummary| p@)
}

pub open spec fn rooms_view(s: Seq<RoomSummary>) -> Seq<RoomView> {
    s.map_values(|r: RoomSummary| r@)
}

pub fn duplicate_peers(s: &[PeerSummary]) -> (r: Vec<PeerSummary>)
    ensures
        peers_view(r@) == peers_view(s@),
{
    let mut r: Vec<PeerSummary> = Vec::new();
    let mut i: usize = 0;
    while i < s.len()
        invariant
            i <= s@.len(),
            r@.len() == i,
            forall|k: int| 0 <= k < i ==> (#[trigger] r@[k])@ == s@[k]@,
        decreases s.len() - i,
    {
        r.push(s[i].duplicate());
        i = i + 1;
    }
    assert(peers_view(r@) =~= peers_view(s@));
    r
}

pub fn duplicate_rooms(s: &[RoomSummary]) -> (r: Vec<RoomSummary>)
    ensures
        rooms_view(r@) == rooms_view(s@),
{
    let mut r: Vec<RoomSummary> = Vec::new();
    let mut i: usize = 0;
    while i < s.len()
        invariant
            i <= s@.len(),
            r@.len() == i,
            forall|k: int| 0 <= k < i ==> (#[trigger] r@[k])@ == s@[k]@,
        decreases s.len() - i,
    {
        r.push(s[i].duplicate());
        i = i + 1;
    }
    assert(rooms_view(r@) =~= rooms_view(s@));
    r
}

/// Position of the first peer whose id equals `id`.
pub fn position_of_peer(s: &Vec<PeerSummary>, id: &String) -> (r: Option<usize>)
    ensures
        match r {
            Some(k) => find_by_id(peer_ids(peers_view(s@)), id@) == Some(k as int),
            None => find_by_id(peer_ids(peers_view(s@)), id@) is None,
        },
        r matches Some(k) ==> k < s@.len(),
{
    let ghost ids = peer_ids(peers_view(s@));
    let mut k: usize = 0;
    while k < s.len()
        invariant
            k <= s@.len(),
            ids == peer_ids(peers_view(s@)),
            ids.len() == s@.len(),
            forall|j: int| 0 <= j < k ==> ids[j] != id@,
        decreases s.len() - k,
    {
        if s[k].id == *id {
            proof {
                lemma_find_by_id(ids, id@, k as int);
            }
            return Some(k);
        }
        k = k + 1;
    }
    proof {
        lemma_find_by_id(ids, id@, k as int);
    }
    None
}

/// Position of the first room whose id equals `id`.
pub fn position_of_room(s: &Vec<RoomSummary>, id: &String) -> (r: Option<usize>)
    ensures
        match r {
            Some(k) => find_by_id(room_ids(rooms_view(s@)), id@) == Some(k as int),
            None => find_by_id(room_ids(rooms_view(s@)), id@) is None,
        },
        r matches Some(k) ==> k < s@.len(),
{
    let ghost ids = room_ids(rooms_view(s@));
    let mut k: usize = 0;
    while k < s.len()
        invariant
            k <= s@.len(),
            ids == room_ids(rooms_view(s@)),
            ids.len() == s@.len(),
            forall|j: int| 0 <= j < k ==> ids[j] != id@,
        decreases s.len() - k,
    {
        if s[k].id == *id {
            proof {
                lemma_find_by_id(ids, id@, k as int);
            }
            return Some(k);
        }
        k = k + 1;
    }
    proof {
        lemma_find_by_id(ids, id@, k as int);
    }
    None
}

/// Fold a scan's peers into the known list (see [`merge_peer`]): a re-scan
/// refreshes label, last-seen time and RSSI while keeping connection and trust.
pub fn merge_discovered_peers(existing: &[PeerSummary], discovered: Vec<PeerSummary>) -> (r: Vec<
    PeerSummary,
>)
    ensures
        peers_view(r@) == merge_peers(peers_view(existing@), peers_view(discovered@)),
{
    let mut merged = duplicate_peers(existing);
    let mut i: usize = 0;
    while i < discovered.len()
        invariant
            i <= discovered@.len(),
            peers_view(merged@) == merge_peers(
                peers_view(existing@),
                peers_view(discovered@.subrange(0, i as int)),
            ),
        decreases discovered.len() - i,
    {
        let peer = discovered[i].duplicate();
        let ghost before = peers_view(merged@);
        proof {
            let d = peers_view(discovered@.subrange(0, i + 1));
            assert(d.drop_last() =~= peers_view(discovered@.subrange(0, i as int)));
            assert(d.last() == peer@);
        }
        match position_of_peer(&merged, &peer.id) {
            Some(j) => {
                let old_peer = merged[j].duplicate();
                let updated = PeerSummary {
                    label: peer.label,
                    last_seen_iso: peer.last_seen_iso,
                    rssi: peer.rssi,
                    ..old_peer
                };
                merged.set(j, updated);
                assert(peers_view(merged@) =~= merge_peer(before, peer@));
            },
            None => {
                merged.push(peer);
                assert(peers_view(merged@) =~= merge_peer(before, peer@));
            },
        }
        i = i + 1;
    }
    assert(discovered@.subrange(0, discovered@.len() as int) =~= discovered@);
    merged
}

/// Fold a scan's rooms into the known list (see [`merge_room`]).
pub fn merge_discovered_rooms(existing: &[RoomSummary], discovered: Vec<RoomSummary>) -> (r: Vec<
    RoomSummary,
>)
    ensures
        rooms_view(r@) == merge_rooms(rooms_view(existing@), rooms_view(discovered@)),
{
    let mut merged = duplicate_rooms(existing);
    let mut i: usize = 0;
    while i < discovered.len()
        invariant
            i <= discovered@.len(),
            rooms_view(merged@) == merge_rooms(
                rooms_view(existing@),
                rooms_view(discovered@.subrange(0, i as int)),
            ),
        decreases discovered.len() - i,
    {
        let room = discovered[i].duplicate();
        let ghost before = rooms_view(merged@);
        proof {
            let d = rooms_view(discovered@.subrange(0, i + 1));
            assert(d.drop_last() =~= rooms_view(discovered@.subrange(0, i as int)));
            assert(d.last() == room@);
        }
        match position_of_room(&merged, &room.id) {
            Some(j) => {
                let old_room = merged[j].duplicate();
                let updated = RoomSummary { id: old_room.id, ..room };
                merged.set(j, updated);
                assert(rooms_view(merged@) =~= merge_room(before, room@));
            },
            None => {
                merged.push(room);
                assert(rooms_view(merged@) =~= merge_room(before, room@));
            },
        }
        i = i + 1;
    }
    assert(discovered@.subrange(0, discovered@.len() as int) =~= discovered@);
    merged
}

} // verus!
