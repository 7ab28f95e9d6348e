[package]
name = "gaslite"
version = "0.1.0"
edition = "2021"
publish = false

[dependencies]
solang-parser = "=0.3.5"
serde_json = "=1.0.154"
serde = { version = "=1.0.229", features = ["derive"] }
thiserror = "2"
axum = { version = "0.8", default-features = false, features = ["http1", "json", "tokio"] }
tokio = { version = "1", features = ["macros", "rt-multi-thread", "sync", "net", "time"] }
tower-http = { version = "0.6", features = ["cors"] }
tracing = "0.1"
tracing-subscriber = { version = "0.3", default-features = false, features = ["env-filter", "fmt"] }
uuid = { version = "1", features = ["v4"] }
dotenvy = "0.15"
reqwest = { version = "=0.13.5", default-features = false, features = ["json", "rustls-no-provider"] }
rustls = { version = "0.23", default-features = false, features = ["ring", "std"] }
qdrant-client = { version = "=1.20.0", default-features = false, features = ["serde"] }
rig-core = { version = "=0.37.0", default-features = false, features = ["reqwest"] }
fastembed = { version = "5", default-features = false, features = ["hf-hub-rustls-tls", "ort-load-dynamic"] }
