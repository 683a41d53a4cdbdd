[package]
name = "whitesmith"
version = "0.1.0"
edition = "2021"
publish = false

[dependencies]
clap = { version = "*", features = ["derive"] }
ctrlc = "*"
human-sort = "*"
humantime = "*"
once_cell = "*"
ron = "*"
serde = { version = "*", features = ["derive"] }
serde_json = "*"
termimad = "*"
threadpool = "*"
wait-timeout = "*"
zip = { version = "*", default-features = false }
