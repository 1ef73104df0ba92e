[package]
name = "cosmic_widget"
version = "0.1.0"
edition = "2021"
publish = false

[dependencies]
serde = { version = "=1.0.229", features = ["derive"] }
serde_json = "=1.0.154"
serde_bencode = "=0.2.4"
chrono = "=0.4.45"
dirs = "=7.0.0"
libc = "=0.2.191"
reqwest = { version = "=0.12.28", default-features = false, features = ["blocking", "rustls-tls"] }
urlencoding = "=2.1.3"
sysinfo = "=0.40.1"
zbus = "5"
