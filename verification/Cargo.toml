[package]
name = "organizer"
version = "0.1.0"
edition = "2021"
publish = false

[dependencies]
clap = { version = "4", features = ["derive"] }
colored = "2"
directories = "5"
open = "5"
serde = { version = "1", features = ["derive"] }
toml = "0.8"
