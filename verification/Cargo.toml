[package]
name = "cyclescan"
version = "0.1.0"
edition = "2021"
publish = false

[dependencies]
ic-stable-structures = "*"
ic-cdk = "*"
ic-cdk-timers = "*"
candid = "*"
serde = { version = "*", features = ["derive"] }
serde_json = "*"
futures = "*"
tokio = { version = "*", features = ["macros", "rt-multi-thread", "time"] }
reqwest = { version = "*", default-features = false, features = ["json"] }
anyhow = "*"
