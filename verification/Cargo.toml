[package]
name = "albumprep"
version = "0.1.0"
edition = "2021"
publish = false

[dependencies]
bs1770 = "*"
clap = { version = "*", features = ["derive"] }
claxon = "*"
metaflac = "*"
serde = { version = "*", features = ["derive"] }
serde_json = "*"
tempfile = "*"
