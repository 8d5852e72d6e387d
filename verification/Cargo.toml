[package]
name = "chat"
version = "0.1.0"
edition = "2021"
publish = false

[dependencies]
chrono = "=0.4.45"
hdk = "=0.7.1"
holochain_serialized_bytes = "=0.0.57"
serde = { version = "=1.0.228", features = ["derive"] }
