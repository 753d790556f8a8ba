[package]
name = "async_minreq"
version = "0.1.0"
edition = "2021"
publish = false

[dependencies]
punycode = "0.4"
serde = "1"
serde_json = "1"
bytes = "1"
futures-core = "0.3"
pin-project = "1"
log = "0.4"
once_cell = "1"
tokio = { version = "1", features = ["net", "io-util", "time", "rt", "macros"] }
tokio-stream = "0.1"
tokio-util = { version = "0.7", features = ["io"] }
tokio-rustls = { version = "0.26", default-features = false, features = ["ring", "tls12"] }
rustls-pki-types = "1"
rustls-native-certs = "0.8"
webpki-roots = "0.26"
