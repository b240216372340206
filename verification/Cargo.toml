[package]
name = "hyper_scripter"
version = "0.1.0"
edition = "2021"
publish = false

[dependencies]
fuzzy-matcher = "=0.3.7"
unicode-width = "=0.1.14"
regex = "=1.13.1"
handlebars = "4"
serde = { version = "1", features = ["derive"] }
serde_json = "1"
toml = "0.5"
clap = { version = "4", features = ["derive"] }
chrono = "0.4"
dirs = "5"
fd-lock = "3"
console = "0.15"
term_grid = "0.1"
