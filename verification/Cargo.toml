[package]
name = "magma"
version = "0.1.0"
edition = "2021"
publish = false

[dependencies]
aes = "=0.8.4"
ansi_term = "=0.12.1"
anyhow = "=1.0.104"
async-trait = "=0.1.92"
clap = { version = "=4.6.7", features = ["derive"] }
futures = "=0.3.34"
mc_chat = { version = "=0.3.0", features = ["serde"] }
miniz_oxide = "=0.7.4"
rand = "=0.8.8"
reqwest = { version = "=0.11.27", default-features = false, features = ["json", "rustls-tls"] }
rsa = "=0.7.2"
serde = { version = "=1.0.229", features = ["derive"] }
serde_json = "=1.0.154"
time = { version = "=0.3.55", features = ["macros"] }
tokio = { version = "=1.54.1", features = ["full"] }
toml = "=0.7.8"
tracing = "=0.1.44"
tracing-subscriber = { version = "=0.3.23", features = ["env-filter", "time"] }
uuid = "=1.29.0"

[dev-dependencies]
cfb8 = "=0.8.1"
