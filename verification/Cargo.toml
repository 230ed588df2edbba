[package]
name = "srv"
version = "0.1.0"
edition = "2021"
publish = false

[dependencies]
anyhow = "=1.0.104"
axum = "=0.8.9"
cap-std = "=3.4.6"
clap = { version = "=4.6.7", features = ["derive"] }
local-ip-address = "=0.6.13"
notify = "=8.2.1"
percent-encoding = "=2.3.2"
qrcode = { version = "=0.14.1", default-features = false }
tokio = { version = "=1.54.1", features = ["full"] }
tower-http = { version = "0.7", features = ["fs"] }
tower-livereload = "=0.9.6"
