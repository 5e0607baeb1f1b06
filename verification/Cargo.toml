[package]
name = "lxst"
version = "0.1.0"
edition = "2021"
publish = false

[dependencies]
rns-core = "=0.1.13"
rns-crypto = "=0.1.10"
rns-net = "=0.5.10"
codec2 = "=0.3.1"
opus = "=0.3.0"
ogg = "=0.9.2"
cpal = "=0.18.2"
rppal = "=0.22.1"
serde = { version = "1", features = ["derive"] }
thiserror = "=2.0.21"
