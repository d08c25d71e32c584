[package]
name = "decaff"
version = "0.1.0"
edition = "2021"
publish = false

[dependencies]
anyhow = "1"
base32 = "0.4"
chrono = "0.4"
clap = { version = "4", features = ["derive"] }
crossterm = "0.27"
git2 = "0.18"
home = "0.5"
inquire = { version = "0.7", features = ["editor"] }
itertools = "0.12"
kdl = "4"
miette = "5"
reqwest = "0.11"
serde = { version = "1", features = ["derive"] }
thiserror = "1"
tokio = { version = "1", features = ["macros", "rt-multi-thread"] }
toml = "0.8"
