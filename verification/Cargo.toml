[package]
name = "aurme"
version = "0.1.0"
edition = "2021"
publish = false

[dependencies]
ansi_term = "*"
clap = "*"
flate2 = "*"
home = "*"
reqwest = { version = "*", default-features = false }
serde = { version = "*", features = ["derive"] }
serde_json = "*"
shellexpand = "*"
tar = "*"
tokio = { version = "*", features = ["macros", "rt-multi-thread"] }
