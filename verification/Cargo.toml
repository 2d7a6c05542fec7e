[package]
name = "wafflecord"
version = "0.1.0"
edition = "2021"
publish = false

[dependencies]
anyhow = "1"
bincode = "1.3"
chrono = "0.4"
poise = "0.6"
sled = "0.34"
tokio = { version = "1", features = ["macros", "rt-multi-thread", "time"] }
tokio_schedule = "*"
