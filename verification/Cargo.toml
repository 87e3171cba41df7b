[package]
name = "tailor"
version = "0.1.0"
edition = "2021"
publish = false

[dependencies]
sha2 = "*"
clap = { version = "*", features = ["derive"] }
chrono = "*"
num_cpus = "*"

[dev-dependencies]
regex = "*"
hex = "*"
