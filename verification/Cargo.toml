[package]
name = "bincmp"
version = "0.1.0"
edition = "2021"
publish = false

[dependencies]
clap = { version = "4", features = ["derive"] }
eyre = "0.6"
tabwriter = "1"
