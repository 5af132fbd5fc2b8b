[package]
name = "ble-calculator-native"
version = "0.1.0"
edition = "2021"
publish = false

[dependencies]
base64 = "=0.22.1"
ed25519-dalek = { version = "=2.2.0", features = ["rand_core"] }
sha2 = "=0.10.9"
uuid = { version = "=1.29.0", features = ["v4"] }
time = { version = "=0.3.55", features = ["formatting"] }
serde = { version = "=1.0.229", features = ["derive"] }
serde_json = "=1.0.154"
rand_core = { version = "=0.6.4", features = ["getrandom"] }
once_cell = "=1.21.4"
rusqlite = { version = "=0.31.0", features = ["bundled"] }
keyring = "=3.6.3"
napi = { version = "=2.16.17", default-features = false, features = ["napi4", "serde-json"] }
napi-derive = "=2.16.13"
btleplug = "=0.11.8"
tokio = { version = "=1.54.1", features = ["rt", "time", "sync", "macros"] }
futures = "=0.3.34"
bluer = { version = "=0.17.4", features = ["bluetoothd"] }
objc2 = "0.6"
objc2-foundation = "0.3"
objc2-core-bluetooth = { version = "0.3", features = ["dispatch2"] }
dispatch2 = "0.3"
windows = { version = "0.58", features = ["Devices_Bluetooth", "Devices_Bluetooth_GenericAttributeProfile", "Foundation", "Foundation_Collections", "Storage_Streams"] }
