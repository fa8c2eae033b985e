[package]
name = "rustlab"
version = "0.1.0"
edition = "2021"
publish = false

[dependencies]
kalosm = { version = "0.4", default-features = false, features = ["language"] }
tokio = { version = "1", features = ["macros", "rt-multi-thread"] }
