[package]
name = "espresso_core"
version = "0.1.0"
edition = "2021"
publish = false

[dependencies]
committable = "=0.2.4"
cld = "=0.5.1"
serde = { version = "=1.0.229", features = ["derive"] }
serde_json = "=1.0.154"
thiserror = "=2.0.21"
sha3 = "=0.10.9"
blake3 = { version = "1", features = ["pure"] }
const-hex = "1"
