[package]
name = "azalea"
version = "0.1.0"
edition = "2021"
publish = false

[dependencies]
aes = "0.8"
flate2 = "1"
md-5 = "0.10"
sha1 = "0.10"
uuid = "1"
tokio = { version = "1", features = ["rt", "rt-multi-thread", "net", "io-util", "sync", "time", "macros"] }
bevy_app = "0.11"
bevy_ecs = "0.11"
bevy_time = "0.11"
parking_lot = "0.12"
thiserror = "1"
log = "0.4"
derive_more = "0.99"
rsa = "0.9"
rand = "0.8"
trust-dns-resolver = "0.23"

[dev-dependencies]
cfb8 = "0.8"
