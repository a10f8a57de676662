[package]
name = "yt_playlist_downloader"
version = "0.1.0"
edition = "2021"
publish = false

[dependencies]
google-youtube3 = "*"
tokio = { version = "*", features = ["rt-multi-thread", "macros", "fs", "io-util"] }
