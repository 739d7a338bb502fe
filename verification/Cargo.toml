[package]
name = "typing_trainer"
version = "0.1.0"
edition = "2021"
publish = false

[dependencies]
crossterm = "0.27"
rand = "0.8"
serde = { version = "1", features = ["derive"] }
unicode-width = "0.1"
ureq = { version = "2", features = ["json"] }
