[package]
name = "fubako"
version = "0.1.0"
edition = "2021"
publish = false

[dependencies]
anyhow = "*"
axum = "*"
clap = { version = "*", features = ["derive", "env"] }
notify = "*"
pulldown-cmark = "*"
serde = { version = "*", features = ["derive"] }
serde_json = "*"
shell-words = "*"
syntect = "*"
tokio = { version = "*", features = ["full"] }
xdg = "*"
