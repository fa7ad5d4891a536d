[package]
name = "webauthn_helper"
version = "0.1.0"
edition = "2021"
publish = false

[dependencies]
base64 = "=0.23.1"
data-encoding = "=2.11.1"
fs2 = "=0.4.3"
serde = { version = "=1.0.229", features = ["derive"] }
serde_json = "=1.0.154"
thiserror = "=2.0.21"
uuid = { version = "=1.29.0", features = ["v4"] }
webauthn_rp = { version = "=0.3.0", features = ["bin", "serde", "serde_relaxed", "serializable_server_state"] }

[dev-dependencies]
ed25519-dalek = "=2.2.0"
sha2 = "=0.10.9"
