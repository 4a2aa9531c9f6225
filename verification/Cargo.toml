[package]
name = "utility"
version = "0.1.0"
edition = "2021"
publish = false

[dependencies]
zookeeper = "0.5"
uuid = { version = "1", features = ["v4"] }
log = "0.4"
