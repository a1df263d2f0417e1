[package]
name = "internet-downloader-backend"
version = "0.1.0"
edition = "2021"
publish = false

[dependencies]
async-stream = "=0.3.6"
axum = "=0.8.9"
bitvec = "=1.1.1"
blake3 = { version = "=1.8.7", features = ["mmap", "rayon"] }
bytes = "=1.12.1"
chrono = "=0.4.45"
dashmap = "=6.2.1"
flume = "=0.11.1"
fs4 = "=0.13.1"
futures-util = "=0.3.34"
indexmap = "=2.14.2"
memmap2 = "=0.9.12"
os_str_bytes = "=7.2.1"
rand = "=0.10.3"
regex = "=1.13.1"
reqwest = { version = "=0.12.28", default-features = false, features = ["rustls-tls", "stream"] }
rquickjs = { version = "=0.14.0", features = ["classes", "futures", "macro", "parallel", "properties"] }
rustls = { version = "=0.23.46", default-features = false, features = ["ring", "std", "tls12"] }
serde = { version = "=1.0.229", features = ["derive"] }
serde_json = "=1.0.154"
sqlx = { version = "=0.8.6", default-features = false, features = ["runtime-tokio", "sqlite"] }
thiserror = "=2.0.21"
tokio = { version = "=1.54.1", features = ["full"] }
tokio-stream = { version = "=0.1.19", features = ["sync"] }
tokio-util = "=0.7.20"
tower-http = { version = "=0.6.11", features = ["cors"] }
tracing = "=0.1.44"
tracing-appender = "=0.2.5"
tracing-subscriber = { version = "=0.3.23", features = ["env-filter"] }
url = "=2.5.8"
