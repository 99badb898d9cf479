[package]
name = "clogwench"
version = "0.1.0"
edition = "2021"
publish = false

[dependencies]
uuid = { version = "=1.29.0", features = ["v4", "serde"] }
rand = "=0.8.8"
serde = { version = "=1.0.229", features = ["derive"] }
serde_json = "=1.0.154"
png = "=0.17.16"
log = "=0.4.35"
chrono = { version = "0.4", default-features = false, features = ["clock", "std"] }
