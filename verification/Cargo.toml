[package]
name = "ludusavi"
version = "0.1.0"
edition = "2021"
publish = false

[dependencies]
chrono = "0.4"
clap = { version = "4", features = ["derive"] }
clap_complete = "4"
dialoguer = "0.11"
globetter = "*"
indicatif = { version = "0.17", features = ["rayon"] }
itertools = "0.13"
log = "0.4"
rayon = "1"
serde = { version = "1", features = ["derive"] }
serde_json = "1"
