[package]
name = "prs"
version = "0.1.0"
edition = "2021"
publish = false

[dependencies]
hubcaps = "0.6"
futures = "0.3"
tokio = { version = "1", features = ["rt-multi-thread"] }
