[package]
name = "embedpipe"
version = "0.1.0"
edition = "2021"
publish = false

[dependencies]
anyhow = "1"
clap = { version = "4", features = ["derive"] }
ndarray = "0.16"
ort = { version = "=2.0.0-rc.13", default-features = false, features = ["std", "ndarray", "load-dynamic"] }
tokenizers = "=0.21.4"
tokio = { version = "1", features = ["macros", "rt-multi-thread"] }
