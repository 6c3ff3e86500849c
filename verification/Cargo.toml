[package]
name = "slint_dart"
version = "0.1.0"
edition = "2021"
publish = false

[dependencies]
base64 = "=0.22.1"
flate2 = "=1.1.10"
pathdiff = "=0.2.3"
serde_json = "=1.0.154"
spin_on = "=0.1.1"
i-slint-compiler = { version = "=1.18.1", default-features = false }
