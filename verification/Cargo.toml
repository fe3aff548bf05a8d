[package]
name = "binkflix"
version = "0.1.0"
edition = "2021"
publish = false

[dependencies]
anyhow = "1"
axum = { version = "0.8", features = ["ws", "macros"] }
axum-extra = { version = "0.10", features = ["cookie", "query"] }
bytes = "1"
chrono = "0.4"
clap = { version = "4", features = ["derive"] }
dashmap = "6"
data-encoding = "2"
dialoguer = "0.11"
dotenvy = "0.15"
futures = "0.3"
josekit = "0.10"
jsonwebtoken = "9"
libc = "0.2"
quick-xml = { version = "0.37", features = ["serialize"] }
rand = "0.8"
reqwest = { version = "0.12", default-features = false, features = ["json"] }
serde = { version = "1", features = ["derive"] }
serde_json = "1"
sqlx = { version = "0.8", default-features = false, features = ["runtime-tokio", "sqlite"] }
tempfile = "3"
tokio = { version = "1", features = ["full"] }
tower = { version = "0.5", features = ["util"] }
tower-http = { version = "0.6", features = ["fs", "cors", "trace", "set-header"] }
tracing = "0.1"
tracing-appender = "0.2"
tracing-subscriber = { version = "0.3", features = ["env-filter"] }
uuid = { version = "1", features = ["v4"] }
walkdir = "2"
