[package]
name = "sing_like_coding"
version = "0.1.0"
edition = "2021"
publish = false

[dependencies]
anyhow = "*"
clap-sys = "*"
libloading = "*"
log = "*"
rayon = "*"
serde = { version = "*", features = ["derive"] }
