[package]
name = "localtunnel"
version = "0.1.0"
edition = "2021"
publish = false

[dependencies]
reqwest = { version = "*", default-features = false, features = ["json"] }
tokio = { version = "*", features = ["full"] }
serde = { version = "*", features = ["derive"] }
serde_json = "*"
socket2 = "*"
clap = { version = "*", features = ["derive"] }
actix-web = { version = "*", default-features = false, features = ["macros"] }
log = "*"
anyhow = "*"
