[package]
name = "ewe"
version = "0.1.0"
edition = "2021"
publish = false

[dependencies]
quick-xml = "*"
chrono = "*"
percent-encoding = "*"
toml = "*"
serde = { version = "*", features = ["derive"] }
serde_yaml = "*"
clap = { version = "*", features = ["derive"] }
thiserror = "*"
redb = "*"
speedy = "*"
