[package]
name = "rust2genshin"
version = "0.1.0"
edition = "2021"
publish = false

[dependencies]
slab = "0.4"
clap = { version = "4", features = ["derive"] }
serde_json = "1"
