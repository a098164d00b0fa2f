[package]
name = "newapi_status_bot"
version = "0.1.0"
edition = "2021"
publish = false

[dependencies]
abi_stable = "=0.11.3"
abi-stable-host-api = "=0.1.13"
qimen-dynamic-plugin-derive = "=0.1.13"
chrono = { version = "=0.4.45", default-features = false, features = ["std", "clock"] }
libloading = "=0.8.9"
regex = "=1.13.1"
reqwest = { version = "=0.12.28", default-features = false, features = ["blocking", "json"] }
rusqlite = { version = "=0.41.1", features = ["bundled"] }
serde = { version = "=1.0.229", features = ["derive"] }
serde_json = { version = "=1.0.154", features = ["raw_value"] }
sha2 = "=0.10.9"
thiserror = "=2.0.21"
