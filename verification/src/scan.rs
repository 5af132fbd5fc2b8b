//! Discovery scans: turning what the radio saw into calculator advertisements,
//! then into join requests (for a host) or rooms (for a guest).
use vstd::prelude::*;
use crate::advertisement::{
    beacon_room, clone_opt_string, filter_view, join_peer, join_request_peer, opt_view,
    parse_calculator_advertisement, parse_local_name, peers_view, room_beacon,
    rooms_view, AdvertisementView, BleAdvertisementPayload, PeerSummary, PeerView,
    RoomSummary, RoomView,
};
use crate::text::{chars_of, push_str, string_from_range};
use crate::warnings::strings_view;

verus! {

/// One device a service-filtered scan reported: its address, advertised local
/// name, decoded service-data payload (if it carried one) and RSSI.
#[derive(Debug)]
pub struct ScannedDevice {
    pub address: String,
    pub local_name: Option<String>,
    pub service_payload: Option<BleAdvertisementPayload>,
    pub rssi: Option<i16>,
}

pub struct DeviceView {
    pub address: Seq<char>,
    pub local_name: Option<Seq<char>>,
    pub service_payload: Option<AdvertisementView>,
    pub rssi: Option<i16>,
}

pub open spec fn ad_opt_view(o: Option<BleAdvertisementPayload>) -> Option<AdvertisementView> {
    match o {
        Some(p) => Some(p@),
        None => None,
    }
}

impl View for ScannedDevice {
    type V = DeviceView;

    open spec fn view(&self) -> DeviceView {
        DeviceView {
            address: self.address@,
            local_name: opt_view(self.local_name),
            service_payload: ad_opt_view(self.service_payload),
            rssi: self.rssi,
        }
    }
}

pub open spec fn devices_view(s: Seq<ScannedDevice>) -> Seq<DeviceView> {
    s.map_values(|d: ScannedDevice| d@)
}

/// The outcome of one scan: what survived parsing and filtering, and what the
/// radio saw (how many devices, and their names for diagnostics).
pub struct ScanOutcome<T> {
    pub items: Vec<T>,
    pub raw_device_count: usize,
    pub raw_device_names: Vec<String>,
}

/// A scanned calculator advertisement: device address, payload, RSSI.
pub type ScannedAdvertisement = (String, BleAdvertisementPayload, Option<i16>);

pub type AdView = (Seq<char>, AdvertisementView, Option<i16>);

pub open spec fn ads_view(s: Seq<ScannedAdvertisement>) -> Seq<AdView> {
    s.map_values(|a: ScannedAdvertisement| (a.0@, a.1@, a.2))
}

/// The calculator advertisement a device carries: its service-data payload,
/// else its parsed local name.
pub open spec fn calculator_ad(d: DeviceView) -> Option<AdvertisementView> {
    match d.service_payload {
        Some(p) => Some(p),
        None => match d.local_name {
            Some(n) => parse_local_name(n),
            None => None,
        },
    }
}

/// The calculator advertisements among `devices`, in scan order.
pub open spec fn scanned_ads(devices: Seq<DeviceView>) -> Seq<AdView>
    decreases devices.len(),
{
    if devices.len() == 0 {
        Seq::empty()
    } else {
        let rest = scanned_ads(devices.drop_last());
        let d = devices.last();
        match calculator_ad(d) {
            Some(a) => rest.push((d.address, a, d.rssi)),
            None => rest,
        }
    }
}

/// How a device is named in diagnostics: its local name cut to 64
/// characters, or `<unnamed>`.
pub open spec fn seen_name(name: Option<Seq<char>>) -> Seq<char> {
    match name {
        Some(n) => if n.len() <= 64 {
            n
        } else {
            n.subrange(0, 64)
        },
        None => "<unnamed>"@,
    }
}

/// The join requests among `ads` for `room_filter`, seen at `now`.
pub open spec fn join_requests(ads: Seq<AdView>, room_filter: Option<Seq<char>>, now: Seq<char>) -> Seq<
    PeerView,
>
    decreases ads.len(),
{
    if ads.len() == 0 {
        Seq::empty()
    } else {
        let rest = join_requests(ads.drop_last(), room_filter, now);
        let a = ads.last();
        match join_peer(a.0, a.1, a.2, room_filter, now) {
            Some(p) => rest.push(p),
            None => rest,
        }
    }
}

/// The rooms among `ads`, seen at `now`.
pub open spec fn room_beacons(ads: Seq<AdView>, now: Seq<char>) -> Seq<RoomView>
    decreases ads.len(),
{
    if ads.len() == 0 {
        Seq::empty()
    } else {
        let rest = room_beacons(ads.drop_last(), now);
        let a = ads.last();
        match beacon_room(a.0, a.1, a.2, now) {
            Some(r) => rest.push(r),
            None => rest,
        }
    }
}

/// The diagnostic name of a scanned device (see [`seen_name`]).
pub fn device_log_name(name: &Option<String>) -> (s: String)
    ensures
        s@ == seen_name(opt_view(*name)),
{
    match name {
        Some(n) => {
            let chars = chars_of(n.as_str());
            if chars.len() <= 64 {
                n.clone()
            } else {
                string_from_range(&chars, 0, 64)
            }
        },
        None => "<unnamed>".to_owned(),
    }
}

fn duplicate_payload(p: &BleAdvertisementPayload) -> (q: BleAdvertisementPayload)
    ensures
        q@ == p@,
{
    BleAdvertisementPayload {
        kind: p.kind.clone(),
        room_id: clone_opt_string(&p.room_id),
        room_name: clone_opt_string(&p.room_name),
        device_id: clone_opt_string(&p.device_id),
        label: clone_opt_string(&p.label),
    }
}

/// Sort what a scan saw: every calculator advertisement (service data first,
/// local name second) with its address and RSSI, the device count, and the
/// device names for diagnostics.
pub fn scan_ble_calculator_advertisements(devices: &Vec<ScannedDevice>) -> (r: ScanOutcome<
    ScannedAdvertisement,
>)
    ensures
        ads_view(r.items@) == scanned_ads(devices_view(devices@)),
        r.raw_device_count == devices@.len(),
        strings_view(r.raw_device_names@) == devices_view(devices@).map_values(
            |d: DeviceView| seen_name(d.local_name),
        ),
{
    let ghost dv = devices_view(devices@);
    let mut items: Vec<ScannedAdvertisement> = Vec::new();
    let mut names: Vec<String> = Vec::new();
    let mut i: usize = 0;
    while i < devices.len()
        invariant
            i <= devices@.len(),
            dv == devices_view(devices@),
            ads_view(items@) == scanned_ads(dv.subrange(0, i as int)),
            strings_view(names@) == dv.subrange(0, i as int).map_values(
                |d: DeviceView| seen_name(d.local_name),
            ),
        decreases devices.len() - i,
    {
        let d = &devices[i];
        let ghost next = dv.subrange(0, i + 1);
        assert(next.drop_last() =~= dv.subrange(0, i as int));
        assert(next.last() == d@);
        let service = match &d.service_payload {
            Some(p) => Some(duplicate_payload(p)),
            None => None,
        };
        let parsed = parse_calculator_advertisement(service, clone_opt_string(&d.local_name));
        let ghost before = ads_view(items@);
        match parsed {
            Some(payload) => {
                items.push((d.address.clone(), payload, d.rssi));
                assert(ads_view(items@) =~= before.push((d@.address, calculator_ad(d@).unwrap(), d.rssi)));
            },
            None => {},
        }
        let ghost names_before = strings_view(names@);
        names.push(device_log_name(&d.local_name));
        assert(strings_view(names@) =~= names_before.push(seen_name(d@.local_name)));
        assert(next.map_values(|d: DeviceView| seen_name(d.local_name)) =~= dv.subrange(
            0,
            i as int,
        ).map_values(|d: DeviceView| seen_name(d.local_name)).push(seen_name(d@.local_name)));
        i = i + 1;
    }
    assert(dv.subrange(0, dv.len() as int) =~= dv);
    ScanOutcome { items, raw_device_count: devices.len(), raw_device_names: names }
}

/// The join requests among a scan's advertisements for `room_filter`, seen at
/// `now`; the raw count and names pass through.
pub fn scan_ble_join_requests(
    scan: ScanOutcome<ScannedAdvertisement>,
    room_filter: Option<&str>,
    now: &str,
) -> (r: ScanOutcome<PeerSummary>)
    ensures
        peers_view(r.items@) == join_requests(ads_view(scan.items@), filter_view(room_filter), now@),
        r.raw_device_count == scan.raw_device_count,
        r.raw_device_names@ == scan.raw_device_names@,
{
    let ghost av = ads_view(scan.items@);
    let mut items: Vec<PeerSummary> = Vec::new();
    let mut i: usize = 0;
    while i < scan.items.len()
        invariant
            i <= scan.items@.len(),
            av == ads_view(scan.items@),
            peers_view(items@) == join_requests(av.subrange(0, i as int), filter_view(room_filter), now@),
        decreases scan.items.len() - i,
    {
        let (address, payload, rssi) = (
            scan.items[i].0.clone(),
            duplicate_payload(&scan.items[i].1),
            scan.items[i].2,
        );
        let ghost next = av.subrange(0, i + 1);
        assert(next.drop_last() =~= av.subrange(0, i as int));
        assert(next.last() == (address@, payload@, rssi));
        let ghost before = peers_view(items@);
        match join_request_peer(address, payload, rssi, room_filter, now) {
            Some(peer) => {
                items.push(peer);
                assert(peers_view(items@) =~= before.push(peer@));
            },
            None => {},
        }
        i = i + 1;
    }
    assert(av.subrange(0, av.len() as int) =~= av);
    ScanOutcome {
        items,
        raw_device_count: scan.raw_device_count,
        raw_device_names: scan.raw_device_names,
    }
}

/// The rooms among a scan's advertisements, seen at `now`; the raw count and
/// names pass through.
pub fn scan_ble_rooms(scan: ScanOutcome<ScannedAdvertisement>, now: &str) -> (r: ScanOutcome<
    RoomSummary,
>)
    ensures
        rooms_view(r.items@) == room_beacons(ads_view(scan.items@), now@),
        r.raw_device_count == scan.raw_device_count,
        r.raw_device_names@ == scan.raw_device_names@,
{
    let ghost av = ads_view(scan.items@);
    let mut items: Vec<RoomSummary> = Vec::new();
    let mut i: usize = 0;
    while i < scan.items.len()
        invariant
            i <= scan.items@.len(),
            av == ads_view(scan.items@),
            rooms_view(items@) == room_beacons(av.subrange(0, i as int), now@),
        decreases scan.items.len() - i,
    {
        let (address, payload, rssi) = (
            scan.items[i].0.clone(),
            duplicate_payload(&scan.items[i].1),
            scan.items[i].2,
        );
        let ghost next = av.subrange(0, i + 1);
        assert(next.drop_last() =~= av.subrange(0, i as int));
        assert(next.last() == (address@, payload@, rssi));
        let ghost before = rooms_view(items@);
        match room_beacon(address, payload, rssi, now) {
            Some(room) => {
                items.push(room);
                assert(rooms_view(items@) =~= before.push(room@));
            },
            None => {},
        }
        i = i + 1;
    }
    assert(av.subrange(0, av.len() as int) =~= av);
    ScanOutcome {
        items,
        raw_device_count: scan.raw_device_count,
        raw_device_names: scan.raw_device_names,
    }
}

/// `names` joined with `", "`.
pub open spec fn joined_names(names: Seq<Seq<char>>) -> Seq<char>
    decreases names.len(),
{
    if names.len() == 0 {
        Seq::empty()
    } else if names.len() == 1 {
        names[0]
    } else {
        joined_names(names.drop_last()) + ", "@ + names.last()
    }
}

/// Render the raw device names for a diagnostic warning.
pub fn format_seen_device_names(names: &[String]) -> (s: String)
    ensures
        s@ == joined_names(strings_view(names@)),
{
    let ghost nv = strings_view(names@);
    let mut s = String::new();
    let mut i: usize = 0;
    while i < names.len()
        invariant
            i <= names@.len(),
            nv == strings_view(names@),
            s@ == joined_names(nv.subrange(0, i as int)),
        decreases names.len() - i,
    {
        let ghost next = nv.subrange(0, i + 1);
        assert(next.drop_last() =~= nv.subrange(0, i as int));
        if i > 0 {
            push_str(&mut s, ", ");
        }
        push_str(&mut s, names[i].as_str());
        proof {
            if i == 0 {
                assert(s@ =~= next[0]);
            }
        }
        i = i + 1;
    }
    assert(nv.subrange(0, nv.len() as int) =~= nv);
    s
}

} // verus!
