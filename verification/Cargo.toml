[package]
name = "autostart"
version = "0.1.0"
edition = "2021"
publish = false

[dependencies]
uuid = { version = "=1.29.1", features = ["v4"] }
url = "=2.5.8"
serde = { version = "=1.0.229", features = ["derive"] }
serde_json = "=1.0.154"
sysinfo = "=0.33.1"
tokio = { version = "=1.54.1", features = ["rt-multi-thread", "macros", "time", "sync"] }
log = "=0.4.35"
thiserror = "=2.0.21"
base64 = "=0.22.1"
