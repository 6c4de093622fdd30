[package]
name = "nu_jupyter_kernel"
version = "0.1.0"
edition = "2021"
publish = false

[dependencies]
hmac = "*"
sha2 = "*"
hex = "*"
uuid = { version = "*", features = ["v4"] }
chrono = "*"
zeromq = "*"
tokio = { version = "*", features = ["macros", "rt-multi-thread", "sync", "time"] }
clap = { version = "*", features = ["derive"] }
dirs = "*"
