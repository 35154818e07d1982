[package]
name = "wallet_tracker"
version = "0.1.0"
edition = "2021"
publish = false

[dependencies]
rust-crypto = "=0.2.36"
serde = { version = "=1.0.229", features = ["derive"] }
sqlite = "=0.37.3"
structopt = "=0.3.26"
strum_macros = "=0.28.0"
tokio = { version = "=1.53.2", features = ["rt-multi-thread", "macros", "time"] }
reqwest = { version = "=0.13.5", default-features = false, features = ["json"] }
