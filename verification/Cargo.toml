[package]
name = "session_counter"
version = "0.1.0"
edition = "2021"
publish = false

[dependencies]
actix = "=0.13.5"
actix-redis = { version = "=0.13.1", default-features = false }
actix-web = { version = "=4.18.1", default-features = false }
redis-async = "=0.16.1"
serde = "=1.0.229"
serde_derive = "=1.0.229"
