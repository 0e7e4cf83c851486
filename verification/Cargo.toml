[package]
name = "socket"
version = "0.1.0"
edition = "2021"
publish = false

[dependencies]
rand = "0.9"
libc = "0.2"
signal-hook = "0.3"
tokio = { version = "1", features = ["rt", "rt-multi-thread", "net", "sync", "macros", "io-util", "time"] }
