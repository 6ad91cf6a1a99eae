[package]
name = "papyrust"
version = "0.1.0"
edition = "2021"
publish = false

[dependencies]
pulldown-cmark = { version = "=0.13.6", default-features = false }
uuid = { version = "=1.29.0", features = ["v5"] }
time = { version = "=0.3.55" }
zip = { version = "=2.6.1", default-features = false, features = ["deflate"] }
toml = "=0.8.23"
serde = { version = "=1.0.229", features = ["derive"] }
clap = { version = "=4.6.7", features = ["derive"] }
anyhow = "=1.0.104"
thiserror = "=2.0.21"
typst = "0.14"
typst-pdf = "0.14"
