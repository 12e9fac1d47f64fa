[package]
name = "find_cmdlet"
version = "0.1.0"
edition = "2021"
publish = false

[dependencies]
tantivy = "*"
serde = { version = "*", features = ["derive"] }
serde_json = "*"
comrak = "*"
yaml-rust = "*"
walkdir = "*"
rayon = "*"
anyhow = "*"
log = "*"
pretty_env_logger = "*"
clap = "*"
actix-web = "*"
toml = "*"
