[package]
name = "bunsan"
version = "0.1.0"
edition = "2021"
publish = false

[dependencies]
actix-web = "4"
anyhow = "1"
arc-swap = "1"
chrono = { version = "0.4", default-features = false, features = ["clock", "serde"] }
clap = { version = "4", features = ["derive", "env"] }
colored = "2"
config = { version = "0.14", default-features = false, features = ["toml"] }
deadpool = { version = "0.12", default-features = false, features = ["managed", "rt_tokio_1"] }
directories = "5"
dotenv-parser = "0.1"
env_logger = "0.11"
log = "0.4"
notify = "6"
prettytable-rs = "0.10"
rand = "0.8"
reqwest = { version = "0.12", default-features = false, features = ["json", "rustls-tls"] }
serde = { version = "1", features = ["derive"] }
serde_json = "1"
tempfile = "3"
tokio = { version = "1", features = ["full"] }
toml_edit = "0.22"
