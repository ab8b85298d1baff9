[package]
name = "music_blog"
version = "0.1.0"
edition = "2021"
publish = false

[dependencies]
anyhow = "1"
askama = "*"
multipart = { version = "*", default-features = false, features = ["server"] }
percent-encoding = "2"
thiserror = "*"
