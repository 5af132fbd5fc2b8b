# ble-calculator-native

The native core of a desktop calculator whose devices share calculations over
Bluetooth LE: a host creates a room and connects to guests, guests advertise a
join request, and every calculation travels as an Ed25519-signed event, split
into frames that fit the link.

- `src/` is the library, written in Verus and verified: advertisement names and
  their parsing, discovery scans, the session state machine, event signing and
  verification (holder binding), chunking, framing and reassembly of the BLE
  transport, and the JSON text of everything that is signed or sent. Public
  functions state their behaviour in `requires`/`ensures`; where a result
  comes from the clock, randomness or an outside crate, the contract says what
  holds of every outcome. Cross-function properties are stated as proof
  functions (`lemma_*`).
- Talking to a BLE backend is left to the caller: the session functions give
  the advertising config or the frames to send (`create_room`, `join_room`,
  `plan_host_delivery`, `plan_guest_delivery`) and take the backend's answer
  back (`note_room_beacon`, `note_guest_advertising`, `note_delivery`).
- `tests/` exercises the library with the real outside crates linked.
- `app/` is the Node (`napi`) module around the library: the commands Electron
  calls, the BLE central (`btleplug`), the peripheral backends for Linux
  (`bluer`), macOS (CoreBluetooth through `objc2`) and Windows (WinRT through
  `windows`), the
  OS keychain, SQLite, JSON decoding with `serde`, and expression evaluation.
