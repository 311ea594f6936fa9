[package]
name = "tstee"
version = "0.5.0"
edition = "2021"
publish = false

[dependencies]
chrono = { version = "0.4", default-features = false, features = ["clock", "std"] }
clap = "4"

[dev-dependencies]
regex = "1"
