[package]
name = "muffin"
version = "0.1.0"
edition = "2021"
publish = false

[dependencies]
anyhow = "1"
clap = { version = "4", features = ["derive"] }
libc = "0.2"
mio = { version = "1", features = ["os-poll", "net"] }
serde = { version = "1", features = ["derive"] }
socket2 = { version = "0.6", features = ["all"] }
tokio = { version = "1", features = ["rt-multi-thread", "net", "time", "io-util"] }
