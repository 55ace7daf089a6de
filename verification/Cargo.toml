[package]
name = "tetris_solver"
version = "0.1.0"
edition = "2021"
publish = false

[dependencies]
log = "0.4"
pretty_env_logger = "0.5"
rayon = "1"
serde = { version = "1", features = ["derive"] }
serde_json = "1"
tungstenite = { version = "0.21", features = ["native-tls"] }
url = "2"
