[package]
name = "muse"
version = "0.1.0"
edition = "2021"
publish = false

[dependencies]
libc = "0.2"
tokio = { version = "1", features = ["macros", "rt-multi-thread"] }
rodio = { version = "0.17", default-features = false, features = ["mp3"] }
