[package]
name = "simpleclaw"
version = "0.1.0"
edition = "2021"
publish = false

[dependencies]
async-trait = "0.1"
chrono = "=0.4.45"
color-eyre = "0.6"
cron = "=0.17.0"
futures = "0.3"
glob = "=0.3.4"
regex = "=1.13.1"
reqwest = { version = "=0.12.28", default-features = false, features = ["json", "stream", "rustls-tls"] }
rusqlite = { version = "=0.41.1", features = ["bundled"] }
sandbox-runtime = "0.1"
scraper = "=0.29.0"
serde = { version = "1", features = ["derive"] }
serde_json = "=1.0.154"
serde_yaml = "0.9"
tokio = { version = "1", features = ["full"] }
tokio-stream = "0.1"
tracing = "0.1"
uuid = { version = "=1.29.0", features = ["v4"] }
wasmtime = { version = "45", default-features = false, features = ["cranelift", "runtime", "std"] }
wasmtime-wasi = { version = "45", default-features = false, features = ["p1"] }
