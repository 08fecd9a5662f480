[package]
name = "anime-dl"
version = "0.1.0"
edition = "2021"
publish = false

[dependencies]
anyhow = "1"
aes-soft = "0.6"
block-modes = "0.7"
bunt = "0.2"
clap = { version = "4", features = ["derive", "env"] }
derive_more = { version = "2", features = ["display", "from", "into", "add"] }
dotenv = "0.15"
futures = "0.3"
hex = "0.4"
indicatif = "0.17"
owo-colors = "4"
rand = "0.9"
reqwest = { version = "0.12", features = ["json"] }
rustyline = "15"
scraper = "0.23"
serde = { version = "1", features = ["derive"] }
serde_json = "1"
tabled = "0.18"
thiserror = "2"
tokio = { version = "1", features = ["full"] }
tokio-stream = "0.1"
toml_edit = "0.22"
which = "7"
