[package]
name = "beebot"
version = "0.1.0"
edition = "2021"
publish = false

[dependencies]
base64 = "0.21"
jsonwebtoken = "9"
yaml-rust = "0.4"
lettre = { version = "0.11", default-features = false, features = ["builder", "hostname", "smtp-transport", "rustls-tls"] }
serenity = "0.12"
tokio = { version = "1", features = ["macros", "rt-multi-thread", "time"] }

[dev-dependencies]
serde_json = "1"
