[package]
name = "skin_guess"
version = "0.1.0"
edition = "2021"
publish = false

[dependencies]
image = { version = "*", default-features = false, features = ["png"] }
rand = "*"
serde = { version = "*", features = ["derive"] }
serde_json = "*"
reqwest = { version = "*", default-features = false, features = ["json", "rustls-tls"] }
tokio = { version = "*", features = ["macros", "rt-multi-thread", "fs", "time"] }
anyhow = "*"
dotenvy = "*"
log = "*"
tracing = "*"
tracing-subscriber = "*"
twilight-cache-inmemory = "*"
twilight-gateway = "*"
twilight-http = "*"
twilight-model = "*"
twilight-standby = "*"
