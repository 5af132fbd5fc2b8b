//! The session state a renderer polls, and the decisions that move it: hosting
//! and joining rooms, discovery scans, connecting, trust, delivery and reset.
use vstd::prelude::*;
use crate::advertisement::{
    accepts_join, accepts_room, find_by_id, kind_name, lemma_local_name_round_trip, merge_discovered_peers,
    parse_local_name, merge_discovered_rooms, merge_peers, merge_rooms, opt_view,
    peer_ids, peers_view, position_of_peer, position_of_room, room_ids, rooms_view, PeerSummary, PeerView, RoomSummary, RoomView,
};
use crate::scan::{
    devices_view, format_seen_device_names, join_requests, joined_names, room_beacons,
    scan_ble_calculator_advertisements, scan_ble_join_requests, scan_ble_rooms, scanned_ads,
    seen_name, DeviceView, ScannedDevice,
};
use crate::credential::{SummaryView, ValidationSummary};
use crate::event::{envelope_json, CalculationEntry, EntryView, SignedEnvelope};
use crate::framing::{frame_event_for_ble, framed_event, frames_view};
use crate::transport::{BLE_CONSERVATIVE_NOTIFY_FRAME_BYTES, BLE_MAX_FRAME_BYTES};
use crate::signing::{identity_fingerprint, device_id_of, NativeIdentity};
use crate::ble::{
    lemma_local_name_fits, local_name, sanitized, advertises, BlePeripheral, PeripheralConfig,
    MAX_ADVERTISEMENT_NAME_BYTES, MAX_ROOM_ID_BYTES,
};
use crate::ids::{is_lower_hex, is_room_code, new_room_code};
use crate::json::{decimal, push_decimal};
use crate::text::{
    ascii_lower, ascii_lower_vec, ascii_upper, chars_of, lower_char, occurs_at_exec, push_str,
    replace_char, str_eq, string_from_chars, string_from_range, trim, trim_chars, trim_end,
    trim_start,
};
use crate::utf8::{str_len, utf8_len};
use crate::warnings::{push_warning_once, strings_view, with_warning};

verus! {

/// Number of calculations kept in the history.
pub const DEFAULT_HISTORY_LIMIT: usize = 100;

/// What this build of the engine can do.
#[derive(Clone, Copy)]
pub struct NativeCapabilities {
    pub ble_central_scanning: bool,
    pub ble_peripheral_advertising: bool,
    pub sqlite_persistence: bool,
    pub keychain_storage: bool,
    pub local_jws_signing: bool,
    pub jwe_decryption: bool,
    pub jwt_sd_jwt_verification: bool,
    pub issuer_trust_validation: bool,
    pub holder_key_binding: bool,
    pub cross_device_sync: bool,
}

impl NativeCapabilities {
    /// The capabilities of this engine; `peripheral_backend` says whether the
    /// platform has a BLE peripheral (advertising) backend.
    pub fn current(peripheral_backend: bool) -> (c: Self)
        ensures
            c.ble_central_scanning,
            c.ble_peripheral_advertising == peripheral_backend,
            c.sqlite_persistence,
            c.keychain_storage,
            c.local_jws_signing,
            !c.jwe_decryption,
            !c.jwt_sd_jwt_verification,
            !c.issuer_trust_validation,
            c.holder_key_binding,
            !c.cross_device_sync,
    {
        NativeCapabilities {
            ble_central_scanning: true,
            ble_peripheral_advertising: peripheral_backend,
            sqlite_persistence: true,
            keychain_storage: true,
            local_jws_signing: true,
            jwe_decryption: false,
            jwt_sd_jwt_verification: false,
            issuer_trust_validation: false,
            holder_key_binding: true,
            cross_device_sync: false,
        }
    }
}

/// Diagnostics of the native runtime.
pub struct NativeRuntimeStatus {
    pub sqlite_path: Option<String>,
    pub keychain_backed: bool,
    pub public_key_fingerprint: String,
    pub last_ble_error: Option<String>,
    pub last_validation: Option<ValidationSummary>,
    pub pending_outbox_events: usize,
}

pub struct StatusView {
    pub sqlite_path: Option<Seq<char>>,
    pub keychain_backed: bool,
    pub public_key_fingerprint: Seq<char>,
    pub last_ble_error: Option<Seq<char>>,
    pub last_validation: Option<SummaryView>,
    pub pending_outbox_events: usize,
}

pub open spec fn summary_opt_view(o: Option<ValidationSummary>) -> Option<SummaryView> {
    match o {
        Some(s) => Some(s@),
        None => None,
    }
}

impl View for NativeRuntimeStatus {
    type V = StatusView;

    open spec fn view(&self) -> StatusView {
        StatusView {
            sqlite_path: opt_view(self.sqlite_path),
            keychain_backed: self.keychain_backed,
            public_key_fingerprint: self.public_key_fingerprint@,
            last_ble_error: opt_view(self.last_ble_error),
            last_validation: summary_opt_view(self.last_validation),
            pending_outbox_events: self.pending_outbox_events,
        }
    }
}

/// The whole session as the renderer sees it.
pub struct RoomState {
    pub local_device_id: String,
    pub room_id: Option<String>,
    pub room_name: Option<String>,
    pub session_role: Option<String>,
    pub ble_role: Option<String>,
    pub scanning: bool,
    pub advertising: bool,
    pub peers: Vec<PeerSummary>,
    pub rooms: Vec<RoomSummary>,
    pub history: Vec<CalculationEntry>,
    pub native_capabilities: NativeCapabilities,
    pub native_status: NativeRuntimeStatus,
    pub native_warnings: Vec<String>,
}

pub struct StateView {
    pub local_device_id: Seq<char>,
    pub room_id: Option<Seq<char>>,
    pub room_name: Option<Seq<char>>,
    pub session_role: Option<Seq<char>>,
    pub ble_role: Option<Seq<char>>,
    pub scanning: bool,
    pub advertising: bool,
    pub peers: Seq<PeerView>,
    pub rooms: Seq<RoomView>,
    pub history: Seq<EntryView>,
    pub capabilities: NativeCapabilities,
    pub status: StatusView,
    pub warnings: Seq<Seq<char>>,
}

pub open spec fn entries_view(s: Seq<CalculationEntry>) -> Seq<EntryView> {
    s.map_values(|e: CalculationEntry| e@)
}

impl View for RoomState {
    type V = StateView;

    open spec fn view(&self) -> StateView {
        StateView {
            local_device_id: self.local_device_id@,
            room_id: opt_view(self.room_id),
            room_name: opt_view(self.room_name),
            session_role: opt_view(self.session_role),
            ble_role: opt_view(self.ble_role),
            scanning: self.scanning,
            advertising: self.advertising,
            peers: peers_view(self.peers@),
            rooms: rooms_view(self.rooms@),
            history: entries_view(self.history@),
            capabilities: self.native_capabilities,
            status: self.native_status@,
            warnings: strings_view(self.native_warnings@),
        }
    }
}

pub open spec fn is_role(role: Option<Seq<char>>, name: Seq<char>) -> bool {
    role == Some(name)
}

fn role_is(role: &Option<String>, name: &str) -> (b: bool)
    ensures
        b == is_role(opt_view(*role), name@),
{
    match role {
        Some(r) => str_eq(r.as_str(), name),
        None => false,
    }
}

impl RoomState {
    /// A fresh session for `identity`: no room, no role, the given persisted
    /// history and storage diagnostics, and the warnings gathered at startup.
    pub fn new(
        identity: &NativeIdentity,
        history: Vec<CalculationEntry>,
        sqlite_path: Option<String>,
        pending_outbox_events: usize,
        capabilities: NativeCapabilities,
        warnings: Vec<String>,
    ) -> (s: Self)
        ensures
            s@ == (StateView {
                local_device_id: device_id_of(identity_fingerprint(identity@)),
                room_id: None,
                room_name: None,
                session_role: None,
                ble_role: None,
                scanning: false,
                advertising: false,
                peers: Seq::empty(),
                rooms: Seq::empty(),
                history: entries_view(history@),
                capabilities,
                status: StatusView {
                    sqlite_path: opt_view(sqlite_path),
                    keychain_backed: identity@.keychain_backed,
                    public_key_fingerprint: identity_fingerprint(identity@),
                    last_ble_error: None,
                    last_validation: None,
                    pending_outbox_events,
                },
                warnings: strings_view(warnings@),
            }),
    {
        let s = RoomState {
            local_device_id: identity.device_id(),
            room_id: None,
            room_name: None,
            session_role: None,
            ble_role: None,
            scanning: false,
            advertising: false,
            peers: Vec::new(),
            rooms: Vec::new(),
            history,
            native_capabilities: capabilities,
            native_status: NativeRuntimeStatus {
                sqlite_path,
                keychain_backed: identity.keychain_backed(),
                public_key_fingerprint: identity.public_key_fingerprint(),
                last_ble_error: None,
                last_validation: None,
                pending_outbox_events,
            },
            native_warnings: warnings,
        };
        assert(peers_view(s.peers@) =~= Seq::empty());
        assert(rooms_view(s.rooms@) =~= Seq::empty());
        s
    }
}

/// The session with no room, role, scan, advertisement, peers, rooms or BLE error.
pub open spec fn after_reset(s: StateView) -> StateView {
    StateView {
        room_id: None,
        room_name: None,
        session_role: None,
        ble_role: None,
        scanning: false,
        advertising: false,
        peers: Seq::empty(),
        rooms: Seq::empty(),
        status: StatusView { last_ble_error: None, ..s.status },
        ..s
    }
}

/// Leaving the session keeps no trace of the room it was in: no room id or
/// name, no role, no discovery or advertising, no peers, rooms or BLE error,
/// while the device, history, capabilities and warnings stay. Leaving a room
/// just hosted ends in the same session as leaving without hosting it, and
/// leaving twice is leaving once.
pub proof fn lemma_reset_leaves_no_room(s: StateView, name: Seq<char>, id: Seq<char>)
    ensures
        after_reset(s).room_id is None,
        after_reset(s).room_name is None,
        after_reset(s).session_role is None,
        after_reset(s).ble_role is None,
        !after_reset(s).scanning,
        !after_reset(s).advertising,
        after_reset(s).peers.len() == 0,
        after_reset(s).rooms.len() == 0,
        after_reset(s).status.last_ble_error is None,
        after_reset(s).local_device_id == s.local_device_id,
        after_reset(s).history == s.history,
        after_reset(s).capabilities == s.capabilities,
        after_reset(s).warnings == s.warnings,
        after_reset(hosting_state(s, name, id)) == after_reset(s),
        after_reset(after_reset(s)) == after_reset(s),
{
}

/// Hosting a room under a name keeps that name, trimmed; only a blank name
/// gets the default, and the room goes by its code.
pub proof fn lemma_hosted_room_keeps_its_name(s: StateView, name: Seq<char>, id: Seq<char>)
    ensures
        trim(name).len() > 0 ==> hosting_state(s, name, id).room_name == Some(trim(name)),
        trim(name).len() == 0 ==> hosting_state(s, name, id).room_name == Some("Calculator Room"@),
        hosting_state(s, name, id).room_id == Some(id),
{
}

/// Leave the current session: every room, role and discovery field is cleared;
/// the device id, history, capabilities and warnings stay.
pub fn reset_ble_session(state: &mut RoomState)
    ensures
        final(state)@ == after_reset(old(state)@),
{
    state.room_id = None;
    state.room_name = None;
    state.session_role = None;
    state.ble_role = None;
    state.scanning = false;
    state.advertising = false;
    state.peers = Vec::new();
    state.rooms = Vec::new();
    state.native_status.last_ble_error = None;
    assert(peers_view(state.peers@) =~= Seq::empty());
    assert(rooms_view(state.rooms@) =~= Seq::empty());
}

/// `value` trimmed, or `default_value` when nothing is left.
pub fn trim_or_default(value: &str, default_value: &str) -> (s: String)
    ensures
        s@ == if trim(value@).len() == 0 {
            default_value@
        } else {
            trim(value@)
        },
{
    let trimmed = trim_chars(value);
    if trimmed.len() == 0 {
        default_value.to_owned()
    } else {
        string_from_chars(&trimmed)
    }
}

/// The session roles are distinct names.
pub proof fn lemma_roles_differ()
    ensures
        "host"@ != "guest"@,
{
    reveal_strlit("host");
    reveal_strlit("guest");
    assert("host"@[0] != "guest"@[0]);
}

/// A peer once a verified event arrived: for a host, every connected peer
/// becomes trusted; for a guest, its host becomes connected and trusted.
pub open spec fn verified_peer(role: Option<Seq<char>>, p: PeerView, now: Seq<char>) -> PeerView {
    if is_role(role, "host"@) && p.connected {
        PeerView { trust_status: "trusted"@, last_seen_iso: now, ..p }
    } else if is_role(role, "guest"@) && p.session_role == "host"@ {
        PeerView { connected: true, trust_status: "trusted"@, last_seen_iso: now, ..p }
    } else {
        p
    }
}

/// A guest's host peer marked connected (its trust unchanged).
pub open spec fn host_connected_peer(p: PeerView, now: Seq<char>) -> PeerView {
    if p.session_role == "host"@ && !p.connected {
        PeerView { connected: true, last_seen_iso: now, ..p }
    } else {
        p
    }
}

/// A peer after its link dropped: disconnected, and trusted peers back to pending.
pub open spec fn dropped_peer(p: PeerView) -> PeerView {
    if p.connected {
        PeerView {
            connected: false,
            trust_status: if p.trust_status == "trusted"@ {
                "pending"@
            } else {
                p.trust_status
            },
            ..p
        }
    } else {
        p
    }
}

pub open spec fn any_connected(peers: Seq<PeerView>) -> bool {
    exists|i: int| 0 <= i < peers.len() && (#[trigger] peers[i]).connected
}

fn verified_peer_of(p: &PeerSummary, host: bool, guest: bool, now: &str) -> (q: PeerSummary)
    ensures
        host ==> q@ == (if p@.connected {
            PeerView { trust_status: "trusted"@, last_seen_iso: now@, ..p@ }
        } else {
            p@
        }),
        !host && guest ==> q@ == (if p@.session_role == "host"@ {
            PeerView { connected: true, trust_status: "trusted"@, last_seen_iso: now@, ..p@ }
        } else {
            p@
        }),
        !host && !guest ==> q@ == p@,
{
    let mut q = p.duplicate();
    if host {
        if q.connected {
            q.trust_status = "trusted".to_owned();
            q.last_seen_iso = now.to_owned();
        }
    } else if guest {
        if str_eq(q.session_role.as_str(), "host") {
            q.connected = true;
            q.trust_status = "trusted".to_owned();
            q.last_seen_iso = now.to_owned();
        }
    }
    q
}

/// Reflect a verified signed event on the session (see [`verified_peer`]);
/// nothing else changes.
pub fn note_verified_peer(state: &mut RoomState, now: &str)
    ensures
        final(state)@ == (StateView {
            peers: old(state)@.peers.map_values(
                |p: PeerView| verified_peer(old(state)@.session_role, p, now@),
            ),
            ..old(state)@
        }),
{
    let host = role_is(&state.session_role, "host");
    let guest = role_is(&state.session_role, "guest");
    let ghost role = old(state)@.session_role;
    let ghost before = peers_view(state.peers@);
    let mut peers: Vec<PeerSummary> = Vec::new();
    let mut i: usize = 0;
    while i < state.peers.len()
        invariant
            i <= state.peers@.len(),
            before == peers_view(state.peers@),
            host == is_role(role, "host"@),
            guest == is_role(role, "guest"@),
            peers@.len() == i,
            forall|k: int| 0 <= k < i ==> (#[trigger] peers@[k])@ == verified_peer(role, before[k], now@),
        decreases state.peers.len() - i,
    {
        let q = verified_peer_of(&state.peers[i], host, guest, now);
        proof {
            lemma_roles_differ();
        }
        assert(before[i as int] == state.peers@[i as int]@);
        peers.push(q);
        i = i + 1;
    }
    state.peers = peers;
    assert(peers_view(state.peers@) =~= before.map_values(|p: PeerView| verified_peer(role, p, now@)));
}

/// Mark the guest's host peer connected without promoting its trust (see
/// [`host_connected_peer`]); nothing else changes.
pub fn mark_host_connected(state: &mut RoomState, now: &str)
    ensures
        final(state)@ == (StateView {
            peers: old(state)@.peers.map_values(|p: PeerView| host_connected_peer(p, now@)),
            ..old(state)@
        }),
{
    let ghost before = peers_view(state.peers@);
    let mut peers: Vec<PeerSummary> = Vec::new();
    let mut i: usize = 0;
    while i < state.peers.len()
        invariant
            i <= state.peers@.len(),
            before == peers_view(state.peers@),
            peers@.len() == i,
            forall|k: int| 0 <= k < i ==> (#[trigger] peers@[k])@ == host_connected_peer(before[k], now@),
        decreases state.peers.len() - i,
    {
        let mut q = state.peers[i].duplicate();
        if str_eq(q.session_role.as_str(), "host") && !q.connected {
            q.connected = true;
            q.last_seen_iso = now.to_owned();
        }
        peers.push(q);
        i = i + 1;
    }
    state.peers = peers;
    assert(peers_view(state.peers@) =~= before.map_values(|p: PeerView| host_connected_peer(p, now@)));
}

pub open spec fn disconnected_message() -> Seq<char> {
    "Guest peer disconnected."@
}

/// The host's view of a dropped central link: every connected peer is
/// disconnected (trusted ones fall back to pending), scanning stops, and the
/// drop is reported.
pub open spec fn after_link_drop(s: StateView) -> StateView {
    StateView {
        peers: s.peers.map_values(|p: PeerView| dropped_peer(p)),
        scanning: false,
        status: StatusView { last_ble_error: Some(disconnected_message()), ..s.status },
        ..s
    }
}

/// Reconcile a host's connected peers with the live state of its central
/// link (`link_up`). Only a host with a connected peer whose link is down
/// changes (see [`after_link_drop`]).
pub fn refresh_connection_state(state: &mut RoomState, link_up: bool)
    ensures
        final(state)@ == if is_role(old(state)@.session_role, "host"@) && any_connected(
            old(state)@.peers,
        ) && !link_up {
            after_link_drop(old(state)@)
        } else {
            old(state)@
        },
{
    if !role_is(&state.session_role, "host") || link_up {
        return;
    }
    let ghost before = peers_view(state.peers@);
    let mut connected_seen = false;
    let mut peers: Vec<PeerSummary> = Vec::new();
    let mut i: usize = 0;
    while i < state.peers.len()
        invariant
            i <= state.peers@.len(),
            before == peers_view(state.peers@),
            peers@.len() == i,
            forall|k: int| 0 <= k < i ==> (#[trigger] peers@[k])@ == dropped_peer(before[k]),
            connected_seen <==> exists|k: int| 0 <= k < i && (#[trigger] before[k]).connected,
        decreases state.peers.len() - i,
    {
        let mut q = state.peers[i].duplicate();
        assert(before[i as int] == q@);
        proof {
            if q.connected {
                assert(exists|k: int| 0 <= k < i + 1 && (#[trigger] before[k]).connected);
            } else {
                assert((exists|k: int| 0 <= k < i + 1 && (#[trigger] before[k]).connected) ==> (exists|
                    k: int,
                | 0 <= k < i && (#[trigger] before[k]).connected));
            }
        }
        if q.connected {
            connected_seen = true;
            q.connected = false;
            if str_eq(q.trust_status.as_str(), "trusted") {
                q.trust_status = "pending".to_owned();
            }
        }
        peers.push(q);
        i = i + 1;
    }
    if !connected_seen {
        assert(!any_connected(before));
        return;
    }
    assert(any_connected(before));
    state.peers = peers;
    state.scanning = false;
    state.native_status.last_ble_error = Some("Guest peer disconnected.".to_owned());
    assert(peers_view(state.peers@) =~= before.map_values(|p: PeerView| dropped_peer(p)));
}

/// Take in what storage holds: its newest history (when it could be read),
/// the pending outbox count and the database path.
pub fn apply_persisted_history(
    state: &mut RoomState,
    history: Option<Vec<CalculationEntry>>,
    pending_outbox_events: usize,
    sqlite_path: String,
)
    ensures
        final(state)@ == (StateView {
            history: match history {
                Some(h) => entries_view(h@),
                None => old(state)@.history,
            },
            status: StatusView {
                pending_outbox_events,
                sqlite_path: Some(sqlite_path@),
                ..old(state)@.status
            },
            ..old(state)@
        }),
{
    if let Some(h) = history {
        state.history = h;
    }
    state.native_status.pending_outbox_events = pending_outbox_events;
    state.native_status.sqlite_path = Some(sqlite_path);
}

/// The session as a scan starts: scanning in the given roles, not
/// advertising, no BLE error.
pub open spec fn scanning_as(s: StateView, role: Seq<char>) -> StateView {
    StateView {
        scanning: true,
        advertising: false,
        session_role: Some(role),
        ble_role: Some("central"@),
        status: StatusView { last_ble_error: None, ..s.status },
        ..s
    }
}

pub open spec fn unmatched_guests_warning(names: Seq<Seq<char>>) -> Seq<char> {
    "BLE scan saw device(s) advertising the calculator service, but none matched a joinable guest for this room. Seen names: "@
        + joined_names(names)
}

pub open spec fn unmatched_rooms_warning(names: Seq<Seq<char>>) -> Seq<char> {
    "BLE scan saw device(s) advertising the calculator service, but none advertised a joinable room. Seen names: "@
        + joined_names(names)
}

pub open spec fn seen_names(devices: Seq<DeviceView>) -> Seq<Seq<char>> {
    devices.map_values(|d: DeviceView| seen_name(d.local_name))
}

/// A host's scan for join requests: the scan outcome `devices` (or the
/// radio's error) folded into the session (see [`merge_peers`]).
pub open spec fn after_join_scan(s: StateView, devices: Result<Seq<DeviceView>, Seq<char>>, now: Seq<char>) -> StateView {
    let s1 = scanning_as(s, "host"@);
    match devices {
        Err(e) => StateView {
            status: StatusView { last_ble_error: Some(e), ..s1.status },
            warnings: with_warning(s1.warnings, "BLE central scan attempted but did not complete: "@ + e),
            ..s1
        },
        Ok(ds) => {
            let items = join_requests(scanned_ads(ds), s1.room_id, now);
            StateView {
                peers: merge_peers(s1.peers, items),
                warnings: if items.len() == 0 && ds.len() > 0 {
                    with_warning(s1.warnings, unmatched_guests_warning(seen_names(ds)))
                } else {
                    s1.warnings
                },
                ..s1
            }
        },
    }
}

/// A guest's scan for rooms (see [`merge_rooms`]).
pub open spec fn after_room_scan(s: StateView, devices: Result<Seq<DeviceView>, Seq<char>>, now: Seq<char>) -> StateView {
    let s1 = scanning_as(s, "guest"@);
    match devices {
        Err(e) => StateView {
            status: StatusView { last_ble_error: Some(e), ..s1.status },
            warnings: with_warning(s1.warnings, "BLE room scan attempted but did not complete: "@ + e),
            ..s1
        },
        Ok(ds) => {
            let items = room_beacons(scanned_ads(ds), now);
            StateView {
                rooms: merge_rooms(s1.rooms, items),
                warnings: if items.len() == 0 && ds.len() > 0 {
                    with_warning(s1.warnings, unmatched_rooms_warning(seen_names(ds)))
                } else {
                    s1.warnings
                },
                ..s1
            }
        },
    }
}

pub open spec fn scan_result_view(r: Result<Vec<ScannedDevice>, String>) -> Result<Seq<DeviceView>, Seq<char>> {
    match r {
        Ok(ds) => Ok(devices_view(ds@)),
        Err(e) => Err(e@),
    }
}

fn enter_scanning(state: &mut RoomState, role: &str)
    ensures
        final(state)@ == scanning_as(old(state)@, role@),
{
    state.scanning = true;
    state.advertising = false;
    state.session_role = Some(role.to_owned());
    state.ble_role = Some("central".to_owned());
    state.native_status.last_ble_error = None;
}

fn concat(a: &str, b: &str) -> (s: String)
    ensures
        s@ == a@ + b@,
{
    let mut s = a.to_owned();
    push_str(&mut s, b);
    s
}

/// Become the scanning host and fold a join-request scan (taken after the
/// roles were set, filtered by this session's room) into the peer list.
pub fn start_scanning(state: &mut RoomState, devices: Result<Vec<ScannedDevice>, String>, now: &str)
    ensures
        final(state)@ == after_join_scan(old(state)@, scan_result_view(devices), now@),
{
    enter_scanning(state, "host");
    match devices {
        Ok(ds) => {
            let scan = scan_ble_calculator_advertisements(&ds);
            let filter: Option<&str> = match &state.room_id {
                Some(id) => Some(id.as_str()),
                None => None,
            };
            let scan = scan_ble_join_requests(scan, filter, now);
            if scan.items.len() == 0 && scan.raw_device_count > 0 {
                let names = format_seen_device_names(scan.raw_device_names.as_slice());
                let warning = concat(
                    "BLE scan saw device(s) advertising the calculator service, but none matched a joinable guest for this room. Seen names: ",
                    names.as_str(),
                );
                push_warning_once(&mut state.native_warnings, warning);
            }
            state.peers = merge_discovered_peers(state.peers.as_slice(), scan.items);
        },
        Err(error) => {
            state.native_status.last_ble_error = Some(error.clone());
            let warning = concat("BLE central scan attempted but did not complete: ", error.as_str());
            push_warning_once(&mut state.native_warnings, warning);
        },
    }
}

/// Become the scanning guest and fold a room scan into the room list.
pub fn scan_rooms(state: &mut RoomState, devices: Result<Vec<ScannedDevice>, String>, now: &str)
    ensures
        final(state)@ == after_room_scan(old(state)@, scan_result_view(devices), now@),
{
    enter_scanning(state, "guest");
    match devices {
        Ok(ds) => {
            let scan = scan_ble_calculator_advertisements(&ds);
            let scan = scan_ble_rooms(scan, now);
            if scan.items.len() == 0 && scan.raw_device_count > 0 {
                let names = format_seen_device_names(scan.raw_device_names.as_slice());
                let warning = concat(
                    "BLE scan saw device(s) advertising the calculator service, but none advertised a joinable room. Seen names: ",
                    names.as_str(),
                );
                push_warning_once(&mut state.native_warnings, warning);
            }
            state.rooms = merge_discovered_rooms(state.rooms.as_slice(), scan.items);
        },
        Err(error) => {
            state.native_status.last_ble_error = Some(error.clone());
            let warning = concat("BLE room scan attempted but did not complete: ", error.as_str());
            push_warning_once(&mut state.native_warnings, warning);
        },
    }
}

/// The session hosting room `id` (named `name`, or "Calculator Room" when
/// blank), before its discovery beacon starts.
pub open spec fn hosting_state(s: StateView, name: Seq<char>, id: Seq<char>) -> StateView {
    StateView {
        room_id: Some(id),
        room_name: Some(
            if trim(name).len() == 0 {
                "Calculator Room"@
            } else {
                trim(name)
            },
        ),
        session_role: Some("host"@),
        ble_role: Some("central"@),
        scanning: false,
        advertising: false,
        peers: Seq::empty(),
        rooms: Seq::empty(),
        status: StatusView { last_ble_error: None, ..s.status },
        ..s
    }
}

/// The session once the room beacon started, or failed with `error`: a
/// failure is reported as the BLE error and a warning.
pub open spec fn after_room_beacon(s: StateView, error: Option<Seq<char>>) -> StateView {
    match error {
        None => s,
        Some(e) => {
            let m = "Room discovery beacon could not start: "@ + e;
            StateView {
                status: StatusView { last_ble_error: Some(m), ..s.status },
                warnings: with_warning(s.warnings, m),
                ..s
            }
        },
    }
}

pub open spec fn error_of(r: Result<(), String>) -> Option<Seq<char>> {
    match r {
        Ok(()) => None,
        Err(e) => Some(e@),
    }
}

/// Become the host of room `room_id` (see [`hosting_state`]).
pub fn open_room(state: &mut RoomState, room_name: &str, room_id: String)
    ensures
        final(state)@ == hosting_state(old(state)@, room_name@, room_id@),
{
    state.room_name = Some(trim_or_default(room_name, "Calculator Room"));
    state.room_id = Some(room_id);
    state.session_role = Some("host".to_owned());
    state.ble_role = Some("central".to_owned());
    state.scanning = false;
    state.advertising = false;
    state.peers = Vec::new();
    state.rooms = Vec::new();
    state.native_status.last_ble_error = None;
    assert(peers_view(state.peers@) =~= Seq::empty());
    assert(rooms_view(state.rooms@) =~= Seq::empty());
}

/// Record how starting the room beacon went (see [`after_room_beacon`]).
pub fn note_room_beacon(state: &mut RoomState, result: Result<(), String>)
    ensures
        final(state)@ == after_room_beacon(old(state)@, error_of(result)),
{
    if let Err(error) = result {
        let message = concat("Room discovery beacon could not start: ", error.as_str());
        state.native_status.last_ble_error = Some(message.clone());
        push_warning_once(&mut state.native_warnings, message);
    }
}

/// Host a new room under a fresh join code named `room_name`, and give the
/// config of its discovery beacon (`EVC:R:<code>`) for the peripheral
/// backend to advertise; [`note_room_beacon`] then records how that went.
pub fn create_room(state: &mut RoomState, room_name: &str) -> (config: PeripheralConfig)
    ensures
        final(state)@.room_id matches Some(id) && is_room_code(id) && final(state)@ == hosting_state(
            old(state)@,
            room_name@,
            id,
        ) && advertises(config, seq!['R'], id),
{
    let room_id = new_room_code();
    open_room(state, room_name, room_id.clone());
    PeripheralConfig::room(room_id.as_str())
}

/// A typed join code as compared and advertised: trimmed and lowercased.
pub open spec fn join_code(code: Seq<char>) -> Seq<char> {
    ascii_lower(trim(code))
}

/// What `format!("{:?}", s)` writes for a string (std's `Debug` for `str`).
pub uninterp spec fn debug_text(s: Seq<char>) -> Seq<char>;

/// `format!("{s:?}")` for a `&str`. Claimed: the named `Debug` text of `s`.
#[verifier::external_body]
fn debug_str(s: &str) -> (t: String)
    ensures
        t@ == debug_text(s@),
{
    format!("{s:?}")
}

pub open spec fn too_long_code_message(id: Seq<char>) -> Seq<char> {
    "Room code "@ + debug_text(id) + " is too long to advertise over BLE (max "@ + decimal(
        MAX_ROOM_ID_BYTES as nat,
    ) + " characters)."@
}

/// The session joined to room `id` as a guest, waiting for the host: the
/// room's name and host come from the discovered room with that id, if any.
pub open spec fn joined_state(s: StateView, id: Seq<char>, now: Seq<char>) -> StateView {
    let found = find_by_id(room_ids(s.rooms), id);
    StateView {
        room_id: Some(id),
        room_name: Some(
            match found {
                Some(j) => s.rooms[j].name,
                None => "Join "@ + id,
            },
        ),
        session_role: Some("guest"@),
        ble_role: Some("peripheral"@),
        scanning: false,
        advertising: true,
        peers: seq![
            PeerView {
                id: match found {
                    Some(j) => s.rooms[j].host_device_id,
                    None => "host-native-pending"@,
                },
                label: match found {
                    Some(j) => s.rooms[j].name,
                    None => "Host pending"@,
                },
                session_role: "host"@,
                ble_role: "central"@,
                trust_status: "pending"@,
                connected: false,
                last_seen_iso: now,
                rssi: None,
            },
        ],
        ..s
    }
}

/// Entering a room from a typed code: an empty code or one too long to
/// advertise is refused with a warning (and, when too long, a BLE error);
/// otherwise the session joins (see [`joined_state`]) and the code to
/// advertise is given.
pub open spec fn after_enter_room(s: StateView, code: Seq<char>, now: Seq<char>) -> (StateView, Option<Seq<char>>) {
    let id = join_code(code);
    if id.len() == 0 {
        (StateView { warnings: with_warning(s.warnings, "Cannot join an empty room id."@), ..s }, None)
    } else if utf8_len(id) > MAX_ROOM_ID_BYTES {
        let m = too_long_code_message(id);
        (
            StateView {
                status: StatusView { last_ble_error: Some(m), ..s.status },
                warnings: with_warning(s.warnings, m),
                ..s
            },
            None,
        )
    } else {
        (joined_state(s, id, now), Some(id))
    }
}

/// The guest session once its advertising started, or failed with `error`.
pub open spec fn after_guest_advertising(s: StateView, error: Option<Seq<char>>) -> StateView {
    match error {
        None => StateView { status: StatusView { last_ble_error: None, ..s.status }, ..s },
        Some(e) => StateView {
            advertising: false,
            status: StatusView { last_ble_error: Some(e), ..s.status },
            warnings: with_warning(s.warnings, "Guest BLE advertising could not start: "@ + e),
            ..s
        },
    }
}

/// Enter the room a typed code names (see [`after_enter_room`]); gives the
/// normalized code when the session joined.
pub fn enter_room(state: &mut RoomState, code: &str, now: &str) -> (r: Option<String>)
    ensures
        (final(state)@, opt_view(r)) == after_enter_room(old(state)@, code@, now@),
{
    let id_chars = ascii_lower_vec(&trim_chars(code));
    let room_id = string_from_chars(&id_chars);
    if id_chars.len() == 0 {
        push_warning_once(&mut state.native_warnings, "Cannot join an empty room id.".to_owned());
        return None;
    }
    if str_len(room_id.as_str()) > MAX_ROOM_ID_BYTES {
        let mut message = "Room code ".to_owned();
        push_str(&mut message, debug_str(room_id.as_str()).as_str());
        push_str(&mut message, " is too long to advertise over BLE (max ");
        push_decimal(&mut message, MAX_ROOM_ID_BYTES as u64);
        push_str(&mut message, " characters).");
        state.native_status.last_ble_error = Some(message.clone());
        push_warning_once(&mut state.native_warnings, message);
        return None;
    }
    let ghost rv = rooms_view(state.rooms@);
    let found = position_of_room(&state.rooms, &room_id);
    let (room_name, host_id, host_label) = match found {
        Some(j) => (state.rooms[j].name.clone(), state.rooms[j].host_device_id.clone(), state.rooms[j].name.clone()),
        None => (concat("Join ", room_id.as_str()), "host-native-pending".to_owned(), "Host pending".to_owned()),
    };
    state.room_id = Some(room_id.clone());
    state.room_name = Some(room_name);
    state.session_role = Some("guest".to_owned());
    state.ble_role = Some("peripheral".to_owned());
    state.scanning = false;
    state.advertising = true;
    let mut peers: Vec<PeerSummary> = Vec::new();
    peers.push(
        PeerSummary {
            id: host_id,
            label: host_label,
            session_role: "host".to_owned(),
            ble_role: "central".to_owned(),
            trust_status: "pending".to_owned(),
            connected: false,
            last_seen_iso: now.to_owned(),
            rssi: None,
        },
    );
    state.peers = peers;
    assert(peers_view(state.peers@) =~= joined_state(old(state)@, room_id@, now@).peers);
    Some(room_id)
}

/// Record how starting the guest's advertising went (see [`after_guest_advertising`]).
pub fn note_guest_advertising(state: &mut RoomState, result: Result<(), String>)
    ensures
        final(state)@ == after_guest_advertising(old(state)@, error_of(result)),
{
    match result {
        Ok(()) => {
            state.native_status.last_ble_error = None;
        },
        Err(error) => {
            state.advertising = false;
            state.native_status.last_ble_error = Some(error.clone());
            let warning = concat("Guest BLE advertising could not start: ", error.as_str());
            push_warning_once(&mut state.native_warnings, warning);
        },
    }
}

/// Join the room a typed code names (see [`after_enter_room`]) and give the
/// config of the join request (`EVC:J:<code>`) for the peripheral backend to
/// advertise; [`note_guest_advertising`] then records how that went. A
/// refused code gives nothing to advertise. Case and surrounding whitespace
/// of the code never matter.
pub fn join_room(state: &mut RoomState, code: &str, now: &str) -> (config: Option<PeripheralConfig>)
    ensures
        ({
            let (s1, id) = after_enter_room(old(state)@, code@, now@);
            &&& final(state)@ == s1
            &&& match id {
                None => config is None,
                Some(i) => config matches Some(c) && advertises(c, seq!['J'], i),
            }
        }),
{
    match enter_room(state, code, now) {
        None => None,
        Some(room_id) => Some(PeripheralConfig::join(room_id.as_str())),
    }
}

pub open spec fn missing_backend_warning() -> Seq<char> {
    "Host acceptance needs this platform's BLE peripheral/GATT server backend, which is not implemented yet."@
}

/// A guest that accepted its host: advertising stops and the only peer is
/// the connected host (its trust still to be earned by a verified event);
/// without a peripheral backend on this platform a warning says so.
pub open spec fn accepting_state(s: StateView, supported: bool, now: Seq<char>) -> StateView {
    let peer = PeerView {
        id: "host-native"@,
        label: "Host connected"@,
        session_role: "host"@,
        ble_role: "central"@,
        trust_status: "pending"@,
        connected: true,
        last_seen_iso: now,
        rssi: None,
    };
    StateView {
        peers: seq![peer],
        advertising: false,
        warnings: if supported {
            s.warnings
        } else {
            with_warning(s.warnings, missing_backend_warning())
        },
        ..s
    }
}

/// Accept the host (see [`accepting_state`]); `supported` says whether the
/// platform has a peripheral backend.
pub fn accept_host_with(state: &mut RoomState, supported: bool, now: &str)
    ensures
        final(state)@ == accepting_state(old(state)@, supported, now@),
{
    let mut peers: Vec<PeerSummary> = Vec::new();
    peers.push(
        PeerSummary {
            id: "host-native".to_owned(),
            label: "Host connected".to_owned(),
            session_role: "host".to_owned(),
            ble_role: "central".to_owned(),
            trust_status: "pending".to_owned(),
            connected: true,
            last_seen_iso: now.to_owned(),
            rssi: None,
        },
    );
    state.peers = peers;
    assert(peers_view(state.peers@) =~= accepting_state(old(state)@, supported, now@).peers);
    state.advertising = false;
    if !supported {
        push_warning_once(
            &mut state.native_warnings,
            "Host acceptance needs this platform's BLE peripheral/GATT server backend, which is not implemented yet.".to_owned(),
        );
    }
}

/// Accept the host, asking `peripheral` whether this platform can act as a
/// peripheral at all (see [`accepting_state`]).
pub fn accept_host_connection<P: BlePeripheral>(state: &mut RoomState, peripheral: &P, now: &str)
    ensures
        exists|supported: bool| final(state)@ == accepting_state(old(state)@, supported, now@),
{
    let supported = peripheral.is_supported();
    accept_host_with(state, supported, now);
}

/// Whether a connect request may go ahead: only a host connects, and only to
/// a listed peer; otherwise a warning says why.
pub open spec fn after_connect_check(s: StateView, peer_id: Seq<char>) -> (StateView, bool) {
    if !is_role(s.session_role, "host"@) {
        (
            StateView {
                warnings: with_warning(
                    s.warnings,
                    "Only a host/central session can approve guest join requests."@,
                ),
                ..s
            },
            false,
        )
    } else if find_by_id(peer_ids(s.peers), peer_id) is None {
        (
            StateView {
                warnings: with_warning(
                    s.warnings,
                    "Peer "@ + peer_id + " was not found during native connect request"@,
                ),
                ..s
            },
            false,
        )
    } else {
        (s, true)
    }
}

/// Check a connect request (see [`after_connect_check`]); true when it may proceed.
pub fn begin_connect_guest(state: &mut RoomState, peer_id: &str) -> (proceed: bool)
    ensures
        (final(state)@, proceed) == after_connect_check(old(state)@, peer_id@),
{
    if !role_is(&state.session_role, "host") {
        push_warning_once(
            &mut state.native_warnings,
            "Only a host/central session can approve guest join requests.".to_owned(),
        );
        return false;
    }
    let id = peer_id.to_owned();
    match position_of_peer(&state.peers, &id) {
        Some(_) => true,
        None => {
            let mut warning = "Peer ".to_owned();
            push_str(&mut warning, peer_id);
            push_str(&mut warning, " was not found during native connect request");
            push_warning_once(&mut state.native_warnings, warning);
            false
        },
    }
}

/// The BLE address a discovery peer id names (`ble-<address>`), or why there is none.
pub fn connect_ble_peer_address(peer_id: &str) -> (r: Result<String, String>)
    ensures
        match r {
            Ok(address) => peer_id@ == "ble-"@ + address@,
            Err(e) => e@ == "Peer is not a native BLE discovery result"@ && !(exists|a: Seq<char>|
                peer_id@ == #[trigger] ("ble-"@ + a)),
        },
{
    let chars = chars_of(peer_id);
    let prefix = chars_of("ble-");
    if chars.len() >= 4 && occurs_at_exec(&chars, &prefix, 0) {
        let address = string_from_range(&chars, 4, chars.len());
        assert(peer_id@ =~= "ble-"@ + address@) by {
            reveal_strlit("ble-");
        }
        Ok(address)
    } else {
        proof {
            reveal_strlit("ble-");
            assert forall|a: Seq<char>| peer_id@ != #[trigger] ("ble-"@ + a) by {
                if peer_id@ == "ble-"@ + a {
                    assert(peer_id@.subrange(0, 4) =~= prefix@);
                }
            }
        }
        Err("Peer is not a native BLE discovery result".to_owned())
    }
}

/// A listed peer after a connect attempt to `peer_id`: connected and trusted
/// when it succeeded, disconnected and pending when it failed.
pub open spec fn attempted_peer(p: PeerView, peer_id: Seq<char>, ok: bool, now: Seq<char>) -> PeerView {
    if p.id == peer_id {
        PeerView {
            connected: ok,
            trust_status: if ok {
                "trusted"@
            } else {
                "pending"@
            },
            last_seen_iso: now,
            ..p
        }
    } else {
        p
    }
}

/// The session after a connect attempt to `peer_id` ended with `error` (or
/// none): the peer's entry is updated, the error is reported, and a
/// successful connection ends discovery.
pub open spec fn after_connect(s: StateView, peer_id: Seq<char>, error: Option<Seq<char>>, now: Seq<char>) -> StateView {
    let listed = find_by_id(peer_ids(s.peers), peer_id) is Some;
    StateView {
        peers: s.peers.map_values(|p: PeerView| attempted_peer(p, peer_id, error is None, now)),
        scanning: if error is None {
            false
        } else {
            s.scanning
        },
        status: if listed {
            StatusView { last_ble_error: error, ..s.status }
        } else {
            s.status
        },
        warnings: match error {
            Some(e) => if listed {
                with_warning(s.warnings, "Native BLE connect failed for "@ + peer_id + ": "@ + e)
            } else {
                s.warnings
            },
            None => s.warnings,
        },
        ..s
    }
}

/// Record the outcome of connecting to `peer_id` (see [`after_connect`]).
pub fn finish_connect_guest(state: &mut RoomState, peer_id: &str, result: Result<(), String>, now: &str)
    ensures
        final(state)@ == after_connect(old(state)@, peer_id@, error_of(result), now@),
{
    let ok = result.is_ok();
    let ghost before = peers_view(state.peers@);
    let ghost error = error_of(result);
    let id = peer_id.to_owned();
    let listed = position_of_peer(&state.peers, &id).is_some();
    let mut peers: Vec<PeerSummary> = Vec::new();
    let mut i: usize = 0;
    while i < state.peers.len()
        invariant
            i <= state.peers@.len(),
            before == peers_view(state.peers@),
            peers@.len() == i,
            ok == (error is None),
            forall|k: int|
                0 <= k < i ==> (#[trigger] peers@[k])@ == attempted_peer(before[k], peer_id@, ok, now@),
        decreases state.peers.len() - i,
    {
        let mut q = state.peers[i].duplicate();
        if str_eq(q.id.as_str(), peer_id) {
            q.last_seen_iso = now.to_owned();
            q.connected = ok;
            q.trust_status = if ok {
                "trusted".to_owned()
            } else {
                "pending".to_owned()
            };
        }
        peers.push(q);
        i = i + 1;
    }
    state.peers = peers;
    assert(peers_view(state.peers@) =~= before.map_values(
        |p: PeerView| attempted_peer(p, peer_id@, ok, now@),
    ));
    if listed {
        match result {
            Ok(()) => {
                state.native_status.last_ble_error = None;
            },
            Err(error) => {
                state.native_status.last_ble_error = Some(error.clone());
                let mut warning = "Native BLE connect failed for ".to_owned();
                push_str(&mut warning, peer_id);
                push_str(&mut warning, ": ");
                push_str(&mut warning, error.as_str());
                push_warning_once(&mut state.native_warnings, warning);
            },
        }
    }
    if ok {
        state.scanning = false;
    }
}

/// The expression a submission carries, trimmed; `None` when blank.
pub fn submission_expression(expression: &str) -> (r: Option<String>)
    ensures
        match r {
            Some(e) => e@ == trim(expression@) && e@.len() > 0,
            None => trim(expression@).len() == 0,
        },
{
    let trimmed = trim_chars(expression);
    if trimmed.len() == 0 {
        None
    } else {
        Some(string_from_chars(&trimmed))
    }
}

/// Sign as `identity` from now on: the device id and key diagnostics follow it.
pub fn adopt_identity(state: &mut RoomState, identity: &NativeIdentity)
    ensures
        final(state)@ == (StateView {
            local_device_id: device_id_of(identity_fingerprint(identity@)),
            status: StatusView {
                keychain_backed: identity@.keychain_backed,
                public_key_fingerprint: identity_fingerprint(identity@),
                ..old(state)@.status
            },
            ..old(state)@
        }),
{
    state.local_device_id = identity.device_id();
    state.native_status.keychain_backed = identity.keychain_backed();
    state.native_status.public_key_fingerprint = identity.public_key_fingerprint();
}

/// `entry`, trusted exactly when its validation found it valid.
pub open spec fn validated_entry(entry: EntryView, validation: SummaryView) -> EntryView {
    EntryView { trusted: validation.valid, ..entry }
}

/// The history with `entry` put first, keeping at most the newest
/// `DEFAULT_HISTORY_LIMIT` calculations.
pub open spec fn with_newest(history: Seq<EntryView>, entry: EntryView) -> Seq<EntryView> {
    let h = seq![entry] + history;
    if h.len() <= DEFAULT_HISTORY_LIMIT {
        h
    } else {
        h.subrange(0, DEFAULT_HISTORY_LIMIT as int)
    }
}

/// Recording a calculation puts it first and shifts the history down by one:
/// the earlier entries follow in their order, and only the oldest falls off
/// once the history is full.
pub proof fn lemma_newest_first_oldest_evicted(history: Seq<EntryView>, entry: EntryView)
    ensures
        with_newest(history, entry).len() == if history.len() + 1 <= DEFAULT_HISTORY_LIMIT {
            history.len() + 1int
        } else {
            DEFAULT_HISTORY_LIMIT as int
        },
        with_newest(history, entry)[0] == entry,
        forall|i: int|
            0 <= i < with_newest(history, entry).len() - 1 ==> #[trigger] with_newest(history, entry)[i
                + 1] == history[i],
{
}

/// Record a signed calculation and its validation: the entry (trusted as
/// validated) goes first in the history, and the validation is kept for
/// diagnostics. Gives the recorded entry.
pub fn record_calculation(state: &mut RoomState, entry: CalculationEntry, validation: ValidationSummary) -> (recorded: CalculationEntry)
    ensures
        recorded@ == validated_entry(entry@, validation@),
        final(state)@ == (StateView {
            history: with_newest(old(state)@.history, validated_entry(entry@, validation@)),
            status: StatusView { last_validation: Some(validation@), ..old(state)@.status },
            ..old(state)@
        }),
        final(state)@.history.len() <= DEFAULT_HISTORY_LIMIT,
        final(state)@.history[0] == recorded@,
{
    let mut trusted_entry = entry;
    trusted_entry.trusted = validation.valid;
    state.native_status.last_validation = Some(validation);
    let ghost before = entries_view(state.history@);
    state.history.insert(0, trusted_entry.duplicate());
    assert(entries_view(state.history@) =~= seq![trusted_entry@] + before);
    state.history.truncate(DEFAULT_HISTORY_LIMIT);
    assert(entries_view(state.history@) =~= with_newest(before, trusted_entry@));
    trusted_entry
}

/// The session once a delivery attempt ended (`error`, or none): the BLE
/// error reports it.
pub open spec fn after_delivery(s: StateView, error: Option<Seq<char>>) -> StateView {
    StateView { status: StatusView { last_ble_error: error, ..s.status }, ..s }
}

pub open spec fn delivery_error(r: Result<usize, String>) -> Option<Seq<char>> {
    match r {
        Ok(_) => None,
        Err(e) => Some(e@),
    }
}

/// Record how delivering frames went (see [`after_delivery`]).
pub fn note_delivery(state: &mut RoomState, result: Result<usize, String>)
    ensures
        final(state)@ == after_delivery(old(state)@, delivery_error(result)),
{
    match result {
        Ok(_) => {
            state.native_status.last_ble_error = None;
        },
        Err(error) => {
            state.native_status.last_ble_error = Some(error);
        },
    }
}

/// The notify frame budget for a subscribed host: its reported limit, or the
/// conservative one while unknown, never above the transport ceiling.
pub open spec fn notify_budget(limit: Option<usize>) -> usize {
    let b = match limit {
        Some(n) => n,
        None => BLE_CONSERVATIVE_NOTIFY_FRAME_BYTES,
    };
    if b < BLE_MAX_FRAME_BYTES {
        b
    } else {
        BLE_MAX_FRAME_BYTES
    }
}

pub fn host_frame_budget(limit: Option<usize>) -> (b: usize)
    ensures
        b == notify_budget(limit),
{
    let b = match limit {
        Some(n) => n,
        None => BLE_CONSERVATIVE_NOTIFY_FRAME_BYTES,
    };
    if b < BLE_MAX_FRAME_BYTES {
        b
    } else {
        BLE_MAX_FRAME_BYTES
    }
}

/// What a guest delivers to its host: nothing unless the session is a
/// guest; otherwise the frames of the event sized to the subscribed host's
/// notify limit (see [`notify_budget`]), for the peripheral backend to
/// notify ([`note_delivery`] then records how that went), or the framing
/// error as the BLE error.
pub fn plan_host_delivery(
    state: &mut RoomState,
    entry: &CalculationEntry,
    envelope: &SignedEnvelope,
    notify_limit: Option<usize>,
) -> (frames: Option<Vec<Vec<u8>>>)
    requires
        utf8_len(envelope_json(envelope@)) <= usize::MAX / 2,
    ensures
        !is_role(old(state)@.session_role, "guest"@) ==> (frames is None && final(state)@ == old(
            state,
        )@),
        is_role(old(state)@.session_role, "guest"@) ==> match framed_event(
            entry@.id,
            envelope_json(envelope@),
            notify_budget(notify_limit) as nat,
        ) {
            Ok(f) => frames matches Some(v) && frames_view(v@) == f && final(state)@ == old(state)@,
            Err(e) => frames is None && final(state)@ == after_delivery(old(state)@, Some(e)),
        },
{
    if !role_is(&state.session_role, "guest") {
        return None;
    }
    let budget = host_frame_budget(notify_limit);
    match frame_event_for_ble(entry.id.clone(), envelope, budget) {
        Ok(frames) => Some(frames),
        Err(error) => {
            state.native_status.last_ble_error = Some(error);
            None
        },
    }
}

/// What a host delivers to its connected guest: nothing unless it hosts a
/// connected peer; nothing, and the drop is reflected (see
/// [`after_link_drop`]), when the link is down; otherwise the frames of the
/// event at the transport ceiling, or the framing error as the BLE error.
pub fn plan_guest_delivery(
    state: &mut RoomState,
    entry: &CalculationEntry,
    envelope: &SignedEnvelope,
    link_up: bool,
) -> (frames: Option<Vec<Vec<u8>>>)
    requires
        utf8_len(envelope_json(envelope@)) <= usize::MAX / 2,
    ensures
        !(is_role(old(state)@.session_role, "host"@) && any_connected(old(state)@.peers)) ==> (
        frames is None && final(state)@ == old(state)@),
        is_role(old(state)@.session_role, "host"@) && any_connected(old(state)@.peers) && !link_up
            ==> (frames is None && final(state)@ == after_link_drop(old(state)@)),
        is_role(old(state)@.session_role, "host"@) && any_connected(old(state)@.peers) && link_up
            ==> match framed_event(entry@.id, envelope_json(envelope@), BLE_MAX_FRAME_BYTES as nat) {
            Ok(f) => frames matches Some(v) && frames_view(v@) == f && final(state)@ == old(state)@,
            Err(e) => frames is None && final(state)@ == after_delivery(old(state)@, Some(e)),
        },
{
    if !role_is(&state.session_role, "host") || !has_connected_peer(&state.peers) {
        return None;
    }
    if !link_up {
        refresh_connection_state(state, false);
        return None;
    }
    match frame_event_for_ble(entry.id.clone(), envelope, BLE_MAX_FRAME_BYTES) {
        Ok(frames) => Some(frames),
        Err(error) => {
            state.native_status.last_ble_error = Some(error);
            None
        },
    }
}

fn has_connected_peer(peers: &Vec<PeerSummary>) -> (b: bool)
    ensures
        b == any_connected(peers_view(peers@)),
{
    let ghost pv = peers_view(peers@);
    let mut i: usize = 0;
    while i < peers.len()
        invariant
            i <= peers@.len(),
            pv == peers_view(peers@),
            forall|k: int| 0 <= k < i ==> !(#[trigger] pv[k]).connected,
        decreases peers.len() - i,
    {
        if peers[i].connected {
            assert(pv[i as int].connected);
            return true;
        }
        i = i + 1;
    }
    false
}

/// A room beacon error as reported to a host.
pub fn host_beacon_error(error: Option<String>) -> (r: Option<String>)
    ensures
        match error {
            Some(e) => r matches Some(m) && m@ == "Room discovery beacon error: "@ + e@,
            None => r is None,
        },
{
    match error {
        Some(e) => Some(concat("Room discovery beacon error: ", e.as_str())),
        None => None,
    }
}

/// The session once a transport poll reported `error` (or none): the error
/// becomes the BLE error, and a guest's advertising flag follows what its
/// backend reports (`peripheral_advertising`).
pub open spec fn after_transport_error(s: StateView, error: Option<Seq<char>>, peripheral_advertising: bool) -> StateView {
    match error {
        None => s,
        Some(e) => StateView {
            advertising: if is_role(s.session_role, "guest"@) {
                peripheral_advertising
            } else {
                s.advertising
            },
            status: StatusView { last_ble_error: Some(e), ..s.status },
            ..s
        },
    }
}

/// A received calculation as it is stored: it passed signature and holder
/// verification on arrival, so it is kept as trusted.
pub open spec fn stored_received(e: EntryView) -> EntryView {
    EntryView { trusted: true, ..e }
}

/// The received calculations of a poll as they are stored (see [`stored_received`]).
pub fn received_for_storage(received: &Vec<CalculationEntry>) -> (stored: Vec<CalculationEntry>)
    ensures
        stored@.len() == received@.len(),
        forall|i: int| 0 <= i < received@.len() ==> (#[trigger] stored@[i])@ == stored_received(received@[i]@),
{
    let mut stored: Vec<CalculationEntry> = Vec::new();
    let mut i: usize = 0;
    while i < received.len()
        invariant
            i <= received@.len(),
            stored@.len() == i,
            forall|k: int| 0 <= k < i ==> (#[trigger] stored@[k])@ == stored_received(received@[k]@),
        decreases received.len() - i,
    {
        let mut entry = received[i].duplicate();
        entry.trusted = true;
        stored.push(entry);
        i = i + 1;
    }
    stored
}

/// Record a transport error from a poll (see [`after_transport_error`]).
pub fn note_transport_error(state: &mut RoomState, error: Option<String>, peripheral_advertising: bool)
    ensures
        final(state)@ == after_transport_error(old(state)@, opt_view(error), peripheral_advertising),
{
    if let Some(e) = error {
        state.native_status.last_ble_error = Some(e);
        if role_is(&state.session_role, "guest") {
            state.advertising = peripheral_advertising;
        }
    }
}

/// After a poll's inbound frames were processed: a verified event makes the
/// live link trusted (see [`note_verified_peer`]); without one, a guest whose
/// host has subscribed shows the host connected (see [`mark_host_connected`]).
pub fn settle_incoming(state: &mut RoomState, received_any: bool, host_subscribed: bool, now: &str)
    ensures
        final(state)@ == if received_any {
            StateView {
                peers: old(state)@.peers.map_values(
                    |p: PeerView| verified_peer(old(state)@.session_role, p, now@),
                ),
                ..old(state)@
            }
        } else if is_role(old(state)@.session_role, "guest"@) && host_subscribed {
            StateView {
                peers: old(state)@.peers.map_values(|p: PeerView| host_connected_peer(p, now@)),
                ..old(state)@
            }
        } else {
            old(state)@
        },
{
    if received_any {
        note_verified_peer(state, now);
    } else if role_is(&state.session_role, "guest") && host_subscribed {
        mark_host_connected(state, now);
    }
}

/// Warn that a received event was rejected, and why.
pub fn note_rejected_event(warnings: &mut Vec<String>, error: &str)
    ensures
        strings_view(final(warnings)@) == with_warning(
            strings_view(old(warnings)@),
            "Rejected received BLE calculation event: "@ + error@,
        ),
{
    push_warning_once(warnings, concat("Rejected received BLE calculation event: ", error));
}

/// When the host's link drops, no peer is left connected.
pub proof fn lemma_link_drop_disconnects(s: StateView)
    ensures
        !any_connected(after_link_drop(s).peers),
{
    let peers = after_link_drop(s).peers;
    assert forall|i: int| 0 <= i < peers.len() implies !(#[trigger] peers[i]).connected by {
        assert(peers[i] == dropped_peer(s.peers[i]));
    }
}

/// Join codes that differ only in letter case or surrounding whitespace lead
/// to the same session.
pub proof fn lemma_join_code_case_blind(s: StateView, a: Seq<char>, b: Seq<char>, now: Seq<char>)
    requires
        ascii_lower(trim(a)) == ascii_lower(trim(b)),
    ensures
        after_enter_room(s, a, now) == after_enter_room(s, b, now),
{
}

/// A connection attempt trusts exactly the peer it connected: after it, a
/// peer is trusted only if it was trusted before and is another peer, or it
/// is the one asked for and the connection succeeded (and then it is).
pub proof fn lemma_connect_trusts_only_the_connected_peer(
    s: StateView,
    peer_id: Seq<char>,
    error: Option<Seq<char>>,
    now: Seq<char>,
    i: int,
)
    requires
        0 <= i < s.peers.len(),
    ensures
        after_connect(s, peer_id, error, now).peers[i].trust_status == "trusted"@ <==> (if s.peers[i].id
            == peer_id {
            error is None
        } else {
            s.peers[i].trust_status == "trusted"@
        }),
        s.peers[i].id == peer_id ==> after_connect(s, peer_id, error, now).peers[i].connected == (error is None),
{
    reveal_strlit("trusted");
    reveal_strlit("pending");
    assert("pending"@[0] != "trusted"@[0]);
    assert(after_connect(s, peer_id, error, now).peers[i] == attempted_peer(
        s.peers[i],
        peer_id,
        error is None,
        now,
    ));
}

/// A guest that joins a host's room code, typed in any letter case and with
/// any surrounding whitespace, advertises a join request that the host's scan
/// parses back and accepts for that room.
pub proof fn lemma_join_request_reaches_host(code: Seq<char>, host_room: Seq<char>)
    requires
        is_room_code(host_room),
        join_code(code) == host_room,
    ensures
        parse_local_name(local_name(seq!['J'], join_code(code))) matches Some(ad) && ad.room_id
            == Some(host_room) && accepts_join(ad, Some(host_room)),
{
    let h = host_room;
    assert(trim_start(h) == h);
    assert(trim_end(h) == h);
    assert(ascii_lower(h) =~= h) by {
        assert forall|i: int| 0 <= i < h.len() implies #[trigger] lower_char(h[i]) == h[i] by {
            if i >= 2 {
                assert(is_lower_hex(h[i]));
            }
        }
    }
    assert(replace_char(h, ':', ' ') =~= h) by {
        assert forall|i: int| 0 <= i < h.len() implies #[trigger] h[i] != ':' by {
            if i >= 2 {
                assert(is_lower_hex(h[i]));
            }
        }
    }
    assert(sanitized(h) == h);
    assert(is_lower_hex(h[7]));
    lemma_local_name_round_trip('J', h);
    reveal_strlit("J");
    reveal_strlit("JOIN");
    assert(seq!['J'] =~= "J"@);
    assert(kind_name(seq!['J']) == "JOIN"@);
    assert(ascii_upper("JOIN"@) =~= "JOIN"@);
}

/// The discovery beacon a host advertises for its room code parses back, on
/// a guest's scan, to a joinable room under that same code.
pub proof fn lemma_room_beacon_reaches_guest(host_room: Seq<char>)
    requires
        is_room_code(host_room),
    ensures
        parse_local_name(local_name(seq!['R'], host_room)) matches Some(ad) && ad.room_id == Some(
            host_room,
        ) && accepts_room(ad),
{
    let h = host_room;
    assert(trim_start(h) == h);
    assert(trim_end(h) == h);
    assert(ascii_lower(h) =~= h) by {
        assert forall|i: int| 0 <= i < h.len() implies #[trigger] lower_char(h[i]) == h[i] by {
            if i >= 2 {
                assert(is_lower_hex(h[i]));
            }
        }
    }
    assert(replace_char(h, ':', ' ') =~= h) by {
        assert forall|i: int| 0 <= i < h.len() implies #[trigger] h[i] != ':' by {
            if i >= 2 {
                assert(is_lower_hex(h[i]));
            }
        }
    }
    assert(sanitized(h) == h);
    assert(is_lower_hex(h[7]));
    lemma_local_name_round_trip('R', h);
    reveal_strlit("J");
    reveal_strlit("R");
    reveal_strlit("ROOM");
    assert(seq!['R'] =~= "R"@);
    assert(seq!['R'][0] != "J"@[0]);
    assert(kind_name(seq!['R']) == "ROOM"@);
    assert(ascii_upper("ROOM"@) =~= "ROOM"@);
}

/// A join code the session accepts always yields an advertisement name
/// within the scan-response budget, so it is never truncated on air.
pub proof fn lemma_accepted_code_fits_name_budget(s: StateView, code: Seq<char>, now: Seq<char>)
    ensures
        after_enter_room(s, code, now).1 matches Some(id) ==> utf8_len(local_name(seq!['J'], id))
            <= MAX_ADVERTISEMENT_NAME_BYTES,
{
    let id = join_code(code);
    if id.len() != 0 && utf8_len(id) <= MAX_ROOM_ID_BYTES {
        lemma_local_name_fits('J', id);
    }
}

} // verus!
