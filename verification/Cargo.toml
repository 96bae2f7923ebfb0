[package]
name = "hyper_async_router"
version = "0.1.0"
edition = "2021"
publish = false

[dependencies]
futures = "0.1"
http = "0.1"
hyper = { version = "0.11", features = ["compat"] }
route-recognizer = "0.1"
