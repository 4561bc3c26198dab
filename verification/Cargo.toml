[package]
name = "gitshot"
version = "0.1.0"
edition = "2021"
publish = false

[dependencies]
anyhow = "1"
clap = { version = "4", features = ["derive"] }
dirs = "*"
git2 = { version = "*", default-features = false }
rusttype = "*"
serde = { version = "1", features = ["derive"] }
tiny-skia = "*"
toml = "*"
