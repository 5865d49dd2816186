[package]
name = "sshmon"
version = "0.1.0"
edition = "2021"
publish = false

[dependencies]
anyhow = "1"
dotenv = "0.15"
ssh2 = "0.9"
tokio = { version = "1", features = ["net", "rt-multi-thread", "macros"] }
