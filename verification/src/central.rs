//! Decisions of the host's BLE central link: which GATT write to use, and how
//! an adapter that is not powered on is reported.
use vstd::prelude::*;

verus! {

/// How frames are written to the guest's RX characteristic.
#[derive(Debug, Clone, Copy, PartialEq, Eq, Structural)]
pub enum WriteKind {
    WithResponse,
    WithoutResponse,
}

/// The write a characteristic allows: acknowledged writes when offered (they
/// order delivery and give backpressure), else unacknowledged ones.
pub fn select_write_kind(write: bool, write_without_response: bool) -> (r: Result<WriteKind, String>)
    ensures
        write ==> r == Ok::<WriteKind, String>(WriteKind::WithResponse),
        !write && write_without_response ==> r == Ok::<WriteKind, String>(WriteKind::WithoutResponse),
        !write && !write_without_response ==> (r matches Err(e) && e@
            == "Calculator RX characteristic is not writable"@),
{
    if write {
        Ok(WriteKind::WithResponse)
    } else if write_without_response {
        Ok(WriteKind::WithoutResponse)
    } else {
        Err("Calculator RX characteristic is not writable".to_owned())
    }
}

pub open spec fn powered_off_message() -> Seq<char> {
    "Bluetooth is turned off. Turn Bluetooth on to discover Evolve Calc peers."@
}

pub open spec fn unavailable_message() -> Seq<char> {
    "Bluetooth is unavailable — the app may have been denied Bluetooth permission. Check System Settings > Privacy & Security > Bluetooth."@
}

/// Why an adapter that never reported powered-on cannot scan: switched off,
/// or unavailable (most often a denied permission).
pub fn adapter_unavailable_message(powered_off: bool) -> (m: String)
    ensures
        m@ == if powered_off {
            powered_off_message()
        } else {
            unavailable_message()
        },
{
    if powered_off {
        "Bluetooth is turned off. Turn Bluetooth on to discover Evolve Calc peers.".to_owned()
    } else {
        "Bluetooth is unavailable — the app may have been denied Bluetooth permission. Check System Settings > Privacy & Security > Bluetooth.".to_owned()
    }
}

} // verus!
