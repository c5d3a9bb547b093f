[package]
name = "lwk_wollet"
version = "0.1.0"
edition = "2021"
publish = false

[dependencies]
elements = "*"
electrum-client = { version = "*", default-features = false }
minreq = { version = "*", features = ["json-using-serde"] }
serde = { version = "1", features = ["derive"] }
