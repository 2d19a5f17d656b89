[package]
name = "benshi"
version = "0.1.0"
edition = "2021"
publish = false

[dependencies]
anitomy-ng = "*"
anyhow = "1"
chardetng = "*"
clap = { version = "4", features = ["derive"] }
encoding_rs = "0.8"
humantime = "2"
serde = { version = "1", features = ["derive"] }
serde_json = "1"
thiserror = "2"
tokio = { version = "1", features = ["full"] }
unicode-normalization = "0.1"
