[package]
name = "findtime"
version = "0.1.0"
edition = "2021"
publish = false

[dependencies]
regex = "1"
chrono = "0.4"
serde = { version = "1", features = ["derive"] }
log = "0.4"
env_logger = "0.11"
rand = "0.8"
futures = "0.3"
tokio = { version = "1", features = ["macros", "rt-multi-thread"] }
actix-web = { version = "4", default-features = false, features = ["macros"] }
actix-files = "0.6"
reqwest = { version = "0.12", default-features = false, features = ["json", "cookies"] }
