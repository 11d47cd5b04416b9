[package]
name = "rdpcore"
version = "0.1.0"
edition = "2021"
publish = false

[dependencies]
cros-libva = "*"
libloading = "*"
nvenc = "*"
openh264 = "*"
thiserror = "*"
tokio = { version = "1", features = ["sync"] }
tracing = "*"
