[package]
name = "rlsd"
version = "0.1.0"
edition = "2021"
publish = false

[dependencies]
base64 = "0.22"
serde_json = "1"
sha256 = { version = "1", default-features = false }
uuid = { version = "1", features = ["v4"] }
tokio = { version = "1", features = ["rt-multi-thread", "macros", "time"] }
sqlx = { version = "0.8", default-features = false, features = ["sqlite", "runtime-tokio"] }
ratatui = "0.29"
crossterm = "0.28"
chrono = "0.4"
directories = "5"
once_cell = "1"
sysinfo = "0.30"
systemstat = "0.2"
whoami = "1"
