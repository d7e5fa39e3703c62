[package]
name = "quickcopy"
version = "0.1.0"
edition = "2021"
publish = false

[dependencies]
itertools = "*"
xxhash-rust = { version = "*", features = ["xxh3"] }
clap = { version = "*", features = ["derive"] }
log = "*"
fern = "*"
chrono = "*"
