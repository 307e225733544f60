[package]
name = "batsim"
version = "0.1.0"
edition = "2021"
publish = false

[dependencies]
sha2 = "=0.10.9"
base64 = "=0.22.1"
subtle = "=2.6.1"
xxhash-rust = { version = "=0.8.19", features = ["xxh3"] }
time = { version = "=0.3.55", features = ["formatting", "parsing"] }
rand = "=0.8.8"
rand_chacha = "=0.3.1"
ulid = "=1.2.1"
serde = { version = "=1.0.229", features = ["derive"] }
serde_json = "=1.0.154"
figment = { version = "0.10", features = ["toml", "env"] }
