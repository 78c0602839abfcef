[package]
name = "ji"
version = "0.1.0"
edition = "2021"
publish = false

[dependencies]
aes-gcm = "0.10"
argon2 = "0.5"
zstd = "*"
bincode = "1"
serde = { version = "1", features = ["derive"] }
serde_json = "1"
serde_yaml = "*"
thiserror = "*"
walkdir = "*"
clap = "4"
indicatif = "*"
inquire = "*"
rustyline = "*"
tokio = { version = "1", features = ["rt-multi-thread", "net", "io-util", "macros"] }
axum = "*"
tower-http = { version = "*", features = ["cors"] }
wgpu = "*"
bytemuck = "*"
pollster = "*"
