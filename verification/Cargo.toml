[package]
name = "docsync"
version = "0.1.0"
edition = "2021"
publish = false

[dependencies]
dotenvy = "*"
indicatif = "*"
reqwest = { version = "*", default-features = false, features = ["json", "rustls-tls"] }
serde_json = "*"
thiserror = "*"
tokio = { version = "*", features = ["macros", "rt-multi-thread", "time"] }
