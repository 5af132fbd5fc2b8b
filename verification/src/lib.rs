//! Verified core of the BLE calculator sync engine.
pub mod advertisement;
pub mod ble;
pub mod central;
pub mod clock;
pub mod credential;
pub mod encoding;
pub mod event;
pub mod framing;
pub mod ids;
pub mod inbound;
pub mod json;
pub mod paths;
pub mod scan;
pub mod session;
pub mod signing;
pub mod text;
pub mod transport;
pub mod utf8;
pub mod warnings;
