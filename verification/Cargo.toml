[package]
name = "treebank_merge"
version = "0.1.0"
edition = "2021"
publish = false

[dependencies]
urlencoding = "*"
anyhow = "*"
clap = { version = "*", features = ["derive"] }
graphannis = "*"
graphannis-core = "*"
rio_api = "*"
rio_turtle = "*"
tempfile = "*"
toml = "*"
tracing = "*"
tracing-subscriber = "*"
zip = "*"
