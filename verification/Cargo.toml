[package]
name = "productive_numbers"
version = "2.0.0"
edition = "2021"
publish = false

[dependencies]
chrono = "0.4"
clap = { version = "4", features = ["derive"] }
ctrlc = "3"
indicatif = "0.17"
num-format = "0.4"
rayon = "1"
serde = { version = "1", features = ["derive"] }
serde_json = "1"
