[package]
name = "cli_help_docs"
version = "0.1.0"
edition = "2021"
publish = false

[dependencies]
clap = { version = "4", features = ["derive"] }
indexmap = "2"
pathdiff = "0.2"
regex = "1"
