[package]
name = "irnix"
version = "0.1.0"
edition = "2021"
publish = false

[dependencies]
atty = "=0.2.14"
clap = { version = "=4.6.7", features = ["derive"] }
clap_complete = "=4.6.11"
regex = "=1.13.1"
regex-syntax = { version = "=0.8.11", features = ["unicode-perl"] }
