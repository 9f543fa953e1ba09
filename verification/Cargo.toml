[package]
name = "imark"
version = "0.1.0"
edition = "2021"
publish = false

[dependencies]
anyhow = "=1.0.104"
clap = { version = "=4.6.7", features = ["derive"] }
rpassword = "=7.5.4"
tempfile = "=3.27.0"
tokio = { version = "=1.54.1", features = ["fs", "io-std", "io-util", "macros", "process", "rt-multi-thread", "signal"] }
