[package]
name = "turboflakes"
version = "0.1.0"
edition = "2021"
publish = false

[dependencies]
actix-web = "*"
async-std = "*"
chrono = "*"
derive_more = "*"
dotenv = "*"
env_logger = "*"
envy = "*"
lazy_static = "*"
log = "*"
mobc = "*"
mobc-redis = "*"
serde = { version = "*", features = ["derive"] }
thiserror = "*"
