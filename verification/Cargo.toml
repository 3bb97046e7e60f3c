[package]
name = "gasket"
version = "0.1.0"
edition = "2021"
publish = false

[dependencies]
chrono = "*"
uuid = { version = "*", features = ["v4"] }
url = "*"
log = "*"
env_logger = "*"
clap = { version = "*", features = ["derive"] }
actix-web = { version = "*", features = ["openssl"] }
awc = "*"
openssl = "*"
futures = "*"
libc = "*"
signal-hook = "*"
signal-hook-tokio = { version = "*", features = ["futures-v0_3"] }
tokio = { version = "*", features = ["sync", "macros", "rt-multi-thread"] }
tokio-retry = "*"
