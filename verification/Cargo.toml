[package]
name = "gatherer_hub"
version = "0.1.0"
edition = "2021"
publish = false

[dependencies]
arc-swap = "=1.9.3"
atomic_float = "=1.1.0"
byteorder = "=1.5.0"
cpal = "=0.15.3"
ebur128 = "=0.1.11"
hound = "=3.5.1"
lewton = "=0.10.2"
midir = "=0.10.4"
ogg = "=0.8.0"
rfd = { version = "=0.15.4", default-features = false, features = ["xdg-portal", "tokio"] }
rtrb = "=0.3.6"
serde = { version = "=1.0.229", features = ["derive"] }
serde_json = { version = "=1.0.154", features = ["float_roundtrip", "preserve_order"] }
toml = "=0.8.23"
uuid = { version = "=1.29.0", features = ["v4", "serde"] }
vorbis_rs = "=0.5.6"
