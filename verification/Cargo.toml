[package]
name = "hydro_strike"
version = "0.1.0"
edition = "2021"
publish = false

[dependencies]
anyhow = "*"
chrono = "*"
clap = { version = "*", features = ["derive"] }
ctrlc = "*"
env_logger = "*"
log = "*"
num-complex = "*"
rustfft = "*"
serde = { version = "*", features = ["derive"] }
serde_yaml = "*"
useful_number = "*"
