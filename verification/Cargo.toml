[package]
name = "work_break"
version = "0.1.0"
edition = "2021"
publish = false

[dependencies]
chrono = "*"
clap = { version = "*", features = ["derive"] }
confy = "*"
ctrlc = "*"
interprocess = "*"
notify-rust = "*"
ron = "*"
serde = { version = "*", features = ["derive"] }
