[package]
name = "term_render"
version = "0.1.0"
edition = "2021"
publish = false

[dependencies]
crossterm = "0.27"
ron = "0.8"
serde = { version = "1", features = ["derive"] }
thiserror = "1"
