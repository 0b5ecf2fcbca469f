[package]
name = "trusti"
version = "0.1.0"
edition = "2021"
publish = false

[dependencies]
anyhow = "1"
byteorder = "1"
crossbeam-channel = "0.5"
rand = "0.8"
reqwest = { version = "0.11", default-features = false, features = ["blocking", "rustls-tls"] }
serde = "1"
serde_bencode = "0.2"
serde_bytes = "0.11"
serde_derive = "1"
sha1 = "0.6"
urlencoding = "2.1"
