[package]
name = "webauthn"
version = "0.1.0"
edition = "2021"
publish = false

[dependencies]
base64 = "=0.22.1"
ciborium = "=0.2.2"
ring = "=0.17.14"
serde = { version = "=1.0.229", features = ["derive"] }
serde_bytes = "0.11"
serde_json = "=1.0.154"
thiserror = "=1.0.69"
x509-parser = { version = "=0.16.0", features = ["verify"] }

[dev-dependencies]
rcgen = "=0.13.2"
