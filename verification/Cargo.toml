[package]
name = "metsuke"
version = "0.1.0"
edition = "2021"
publish = false

[dependencies]
base64 = "0.22"
bech32 = "0.11"
blake2 = "0.10"
bytes = "1"
ciborium = "0.2"
ed25519-dalek = "2"
http-body-util = "0.1"
hyper = { version = "1", features = ["server", "http1"] }
hyper-util = { version = "0.1", features = ["tokio"] }
postgres = "0.19"
rusqlite = { version = "*", features = ["bundled"] }
rusty-s3 = "*"
serde = { version = "1", features = ["derive"] }
serde_json = "1"
sha2 = "0.10"
thiserror = "2"
time = { version = "0.3", features = ["serde", "formatting", "parsing"] }
tokio = { version = "1", features = ["rt", "net", "time", "sync", "io-util"] }
toml = "*"
ureq = "3"
url = { version = "2", features = ["serde"] }
uuid = { version = "1", features = ["v7"] }
