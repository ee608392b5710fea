[package]
name = "forum_core"
version = "0.1.0"
edition = "2021"
publish = false

[dependencies]
actix-web = "=4.15.0"
bcrypt = "=0.19.3"
chrono = "=0.4.45"
dotenv = "=0.15.0"
env_logger = "=0.11.11"
jsonwebtoken = { version = "=11.1.0", features = ["rust_crypto"] }
serde = { version = "1", features = ["derive"] }

[dev-dependencies]
serde_json = "1"
