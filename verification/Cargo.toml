[package]
name = "dtmpfs"
version = "0.1.0"
edition = "2021"
publish = false

[dependencies]
anyhow = "1"
arc-swap = "1"
axum = "0.7"
bytes = "1"
clap = { version = "4", features = ["derive"] }
dashmap = "6"
fuser = { version = "0.15", default-features = false }
futures = "0.3"
libc = "0.2"
moka = { version = "0.12", features = ["sync"] }
prost = "0.13"
serde = { version = "1", features = ["derive"] }
serde_json = "1"
subtle = "2"
thiserror = "1"
tokio = { version = "1", features = ["rt-multi-thread", "macros", "sync", "time", "net"] }
toml = "0.8"
tonic = "0.12"
tracing = "0.1"
tracing-subscriber = "0.3"
xxhash-rust = { version = "0.8", features = ["xxh3"] }
