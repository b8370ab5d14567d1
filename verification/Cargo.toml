[package]
name = "todo_app_backend"
version = "0.1.0"
edition = "2021"
publish = false

[dependencies]
ic-cdk = "=0.20.3"
candid = "=0.10.37"
serde = "*"
