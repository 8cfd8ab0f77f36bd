[package]
name = "radicle-node"
version = "0.1.0"
edition = "2021"
publish = false

[dependencies]
crossbeam-channel = "=0.5.17"
ed25519-compact = { version = "=2.6.0", features = ["self-verify", "pem"] }
git-ref-format = "=0.7.0"
git-url = "=0.3.5"
git2 = { version = "=0.21.0", default-features = false }
log = "=0.4.34"
multibase = "=0.9.3"
nakamoto-net = "=0.4.0"
nonempty = "=0.12.0"
serde = { version = "=1.0.229", features = ["derive"] }
tempfile = "=3.27.0"
thiserror = "=1.0.69"
