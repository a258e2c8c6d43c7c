[package]
name = "chanjelog"
version = "1.3.0"
edition = "2021"
publish = false

[dependencies]
chrono = { version = "0.4", default-features = false, features = ["clock"] }

[dev-dependencies]
regex = "1"
