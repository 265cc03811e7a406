[package]
name = "yay_sys_tray"
version = "0.1.0"
edition = "2021"
publish = false

[dependencies]
chrono = "*"
which = "*"
tokio = { version = "*", features = ["process", "time", "sync", "rt-multi-thread", "macros", "io-util"] }
serde = { version = "*", features = ["derive"] }
serde_json = "*"
dirs = "*"
resvg = "*"
