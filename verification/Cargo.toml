[package]
name = "rlx-fft"
version = "0.1.0"
edition = "2021"
publish = false

[dependencies]
anyhow = "1"
half = "2"
rand = "=0.8.8"
serde = { version = "1", features = ["derive"] }
serde_json = "1"
rlx-compile = "=0.2.19"
rlx-ir = "=0.2.19"
rlx-runtime = "=0.2.19"
