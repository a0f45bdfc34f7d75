[package]
name = "ferrofin"
version = "0.1.0"
edition = "2021"
publish = false

[dependencies]
async-trait = "0.1"
axum = "0.8"
if-addrs = { version = "0.15", features = ["link-local"] }
libc = "0.2"
libsqlite3-sys = "*"
serde = { version = "1", features = ["derive"] }
serde_json = "1"
sqlx = { version = "0.8", default-features = false, features = ["runtime-tokio", "sqlite"] }
thiserror = "2"
tokio = { version = "1", features = ["net", "rt", "sync", "time", "macros"] }
tracing = "0.1"
utoipa = "5"
uuid = "1"
