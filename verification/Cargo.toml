[package]
name = "deezco"
version = "0.1.0"
edition = "2021"
publish = false

[dependencies]
aes = "*"
anyhow = "1"
axum = "0.8"
blowfish = "*"
cbc = "*"
chrono = "0.4"
clap = { version = "4", features = ["derive"] }
dialoguer = "*"
dirs = "*"
futures-util = "0.3"
hex = "0.4"
indicatif = "*"
libc = "0.2"
libloading = "*"
md-5 = "*"
rand = "*"
reqwest = { version = "0.12", default-features = false, features = ["cookies", "json", "rustls-tls", "stream"] }
serde = { version = "1", features = ["derive"] }
serde_json = "1"
symphonia = { version = "0.5", default-features = false, features = ["mp3", "flac"] }
tokio = { version = "1", features = ["full"] }
