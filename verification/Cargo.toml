[package]
name = "darkheim_launcher"
version = "0.1.0"
edition = "2021"
publish = false

[dependencies]
dirs = "*"
dotenvy = "*"
flate2 = "*"
portablemc = "*"
reqwest = "*"
russh = "*"
russh-sftp = "*"
serde = { version = "*", features = ["derive"] }
tar = "*"
tokio = { version = "*", features = ["full"] }
