[package]
name = "procmail"
version = "0.1.0"
edition = "2021"
publish = false

[dependencies]
regex = "1"
regex-syntax = "0.8"
rustix = { version = "1", features = ["fs", "process", "rand", "time", "event", "pipe", "mm"] }
