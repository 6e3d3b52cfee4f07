[package]
name = "page_selector"
version = "0.1.0"
edition = "2021"
publish = false

[dependencies]
anyhow = "=1.0.104"
clap = { version = "=4.6.7", features = ["derive"] }
lopdf = "=0.31.0"

[dev-dependencies]
winnow = "=0.4.12"
