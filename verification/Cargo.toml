[package]
name = "social_net"
version = "0.1.0"
edition = "2021"
publish = false

[dependencies]
chrono = "0.4"
email_address = "0.2"
md5 = "0.7"
rand = "0.8"
regex = "1"
serde = { version = "1", features = ["derive"] }
serde_json = "1"
uuid = { version = "1", features = ["v4"] }
