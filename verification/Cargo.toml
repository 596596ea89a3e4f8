[package]
name = "physim"
version = "0.1.0"
edition = "2021"
publish = false

[dependencies]
serde = { version = "1", features = ["derive"] }
serde_json = "1"
toml = "0.8"
libloading = "0.8"
log = "0.4"
env_logger = "0.11"
yansi = "1"
terminal-colorsaurus = "0.4"
once_cell = "1"
rand = "0.9"
rand_chacha = "0.9"
rand_distr = "0.5"
bumpalo = { version = "3", features = ["boxed"] }
ahash = "0.8"
