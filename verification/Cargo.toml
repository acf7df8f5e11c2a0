[package]
name = "cczuvpnproto"
version = "0.1.0"
edition = "2021"
publish = false

[dependencies]
aes = "=0.8.4"
anyhow = "1"
base64 = "=0.22.1"
cbc = "=0.1.2"
clap = { version = "4", features = ["derive"] }
rand = "=0.9.5"
rpassword = "=7.5.4"
serde = { version = "1", features = ["derive"] }
serde_json = "1"
tokio = { version = "1", features = ["full"] }
tokio-rustls = "=0.26.6"
tracing = "0.1"
tun-rs = { version = "=2.8.16", features = ["interruptible"] }
uniffi = "=0.32.2"
