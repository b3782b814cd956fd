[package]
name = "awesomelify"
version = "0.1.0"
edition = "2021"
publish = false

[dependencies]
anyhow = "*"
axum = "*"
base64 = "*"
clap = { version = "*", features = ["derive", "env"] }
reqwest = { version = "*", default-features = false, features = ["json", "rustls-tls"] }
serde = { version = "*", features = ["derive"] }
serde_json = "*"
serde_urlencoded = "*"
time = { version = "*", features = ["formatting", "parsing", "serde", "serde-well-known"] }
tokio = { version = "*", features = ["macros", "rt-multi-thread", "signal", "sync", "time", "fs", "net"] }
tower-http = { version = "*", features = ["timeout", "trace"] }
tracing = "*"
tracing-subscriber = { version = "*", features = ["env-filter"] }
url = "*"
