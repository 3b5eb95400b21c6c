[package]
name = "jetstreamer"
version = "0.1.0"
edition = "2021"
publish = false

[dependencies]
ahash = "0.8"
aws-sdk-s3 = { version = "1", default-features = false, features = ["rt-tokio"] }
bytes = "1"
cid = "0.11"
clickhouse = "0.14"
dashmap = "6"
futures-util = "0.3"
log = "0.4"
multihash = "0.19"
once_cell = "1"
reqwest = { version = "0.12", default-features = false, features = ["json", "stream"] }
ripget = "*"
serde = { version = "1", features = ["derive"] }
serde_cbor = "0.11"
serde_json = "1"
solana-address = "*"
solana-message = "*"
tokio = { version = "1", features = ["io-util", "macros", "net", "rt", "sync", "time"] }
tokio-util = { version = "0.7", features = ["io"] }
