[package]
name = "nautilus"
version = "0.1.0"
edition = "2021"
publish = false

[dependencies]
serde_json = "=1.0.154"
uuid = "=1.29.0"
chrono = { version = "=0.4.45", default-features = false, features = ["alloc", "std", "now"] }
rust_decimal = { version = "=1.43.0", default-features = false, features = ["std"] }
