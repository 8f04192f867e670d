[package]
name = "recolor"
version = "0.1.0"
edition = "2021"
publish = false

[dependencies]
palette = "0.7"
anyhow = "1"
serde = { version = "1", features = ["derive"] }
serde_json = "1"
serde_path_to_error = "0.1"
supports-color = "3"
terminal-colorsaurus = "0.4"
terminal_size = "0.4"
time = { version = "0.3", features = ["local-offset"] }
fastrand = "2"
indexmap = "2"
itertools = "0.13"
strum = { version = "0.26", features = ["derive"] }
