[package]
name = "cadverse"
version = "0.1.0"
edition = "2021"
publish = false

[dependencies]
anyhow = "=1.0.104"
bytes = "=1.12.1"
futures = "=0.3.34"
h3 = "=0.0.8"
http = "=1.5.0"
iroh = { version = "=1.4.1", default-features = false }
log = "=0.4.35"
notify = "=8.2.1"
notify-debouncer-mini = "=0.7.0"
pbkdf2 = "=0.12.2"
pkarr = { version = "=8.1.0", default-features = false, features = ["signed_packet"] }
pyo3 = "=0.25.1"
qrcode = { version = "=0.14.1", default-features = false }
rand = "=0.10.3"
reqwest = { version = "=0.13.5", default-features = false }
serde = { version = "=1.0.229", features = ["derive"] }
serde_json = "=1.0.154"
sha2 = "=0.10.9"
tokio = { version = "=1.54.1", features = ["full"] }
tokio-util = "=0.7.20"
