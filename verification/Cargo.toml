[package]
name = "proxynexus"
version = "0.1.0"
edition = "2021"
publish = false

[dependencies]
deunicode = "1"
image = { version = "0.25", default-features = false, features = ["png", "jpeg"] }
jpeg-encoder = "*"
serde = { version = "1", features = ["derive"] }
serde_json = "1"
clap = { version = "4", features = ["derive"] }
anyhow = "1"
tokio = { version = "1", features = ["rt-multi-thread", "macros", "time"] }
zip = { version = "*", default-features = false }
toml = "*"
chrono = "0.4"
walkdir = "2"
dirs = "*"
tracing = "0.1"
tracing-subscriber = "0.3"
tempfile = "3"
gluesql = { version = "*", default-features = false }
gluesql_sled_storage = "*"
gluesql_memory_storage = "*"
reqwest = { version = "0.12", default-features = false, features = ["json", "rustls-tls"] }
futures = "0.3"
async-trait = "0.1"
thiserror = "*"
