[package]
name = "pickle"
version = "0.1.0"
edition = "2021"
publish = false

[dependencies]
argon2 = "=0.5.3"
bytes = "=1.12.1"
chacha20poly1305 = "=0.10.1"
cpal = "=0.17.3"
data-encoding = "=2.11.1"
directories = "=6.0.0"
ed25519-dalek = { version = "=2.2.0", features = ["rand_core"] }
evdev = "=0.13.2"
rusty-opus = "=0.9.1"
parking_lot = "=0.12.5"
postcard = { version = "=1.1.3", features = ["use-std"] }
quinn = "=0.11.12"
rand = "=0.8.8"
rustls = { version = "=0.23.46", default-features = false, features = ["ring", "std"] }
rustls-pki-types = "=1.15.1"
serde = { version = "=1.0.229", features = ["derive"] }
serde_json = "=1.0.154"
sha2 = "=0.10.9"
thiserror = "=2.0.21"
tokio = { version = "=1.54.1", features = ["full"] }
tracing = "=0.1.44"
tracing-subscriber = { version = "=0.3.23", features = ["env-filter"] }
zeroize = "=1.9.1"

[dev-dependencies]
tempfile = "=3.27.0"
