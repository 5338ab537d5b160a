[package]
name = "did_ethr_linked_resources"
version = "0.1.0"
edition = "2021"
publish = false

[dependencies]
chrono = "*"
dotenv = "*"
hex = "*"
serde = { version = "*", features = ["derive"] }
serde_json = "*"
url = "*"
urlencoding = "*"
uuid = { version = "*", features = ["v4"] }
