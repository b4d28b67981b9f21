[package]
name = "bsearch"
version = "0.1.0"
edition = "2021"
publish = false

[dependencies]
anyhow = "=1.0.104"
async-trait = "=0.1.92"
atproto-jetstream = "=0.14.5"
atrium-api = "=0.25.8"
atrium-xrpc-client = "=0.5.15"
chrono = "=0.4.45"
cid = "=0.11.3"
clap = { version = "=4.6.7", features = ["derive", "env"] }
colored = "=3.1.1"
data-encoding = "=2.11.1"
dirs = "=6.0.0"
dotenvy = "=0.15.7"
futures-util = "=0.3.34"
ipld-core = { version = "=0.4.3", features = ["serde"] }
multihash = "=0.19.5"
ndarray = "=0.16.1"
reqwest = { version = "=0.12.28", default-features = false, features = ["json", "rustls-tls", "stream"] }
rusqlite = { version = "=0.34.0", features = ["bundled"] }
serde = "=1.0.229"
serde_ipld_dagcbor = "=0.7.0"
serde_json = "=1.0.154"
sha2 = "=0.10.9"
sqlite-vec = "=0.1.9"
tokio = { version = "=1.54.1", features = ["full"] }
tokio-util = "=0.7.20"
tokio-websockets = { version = "=0.13.3", features = ["client", "rustls-webpki-roots", "ring", "rand"] }
tracing = "=0.1.44"
tracing-subscriber = { version = "=0.3.23", features = ["env-filter"] }
urlencoding = "=2.1.3"
zstd = "=0.13.4"
