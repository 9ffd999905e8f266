[package]
name = "fpl_checker"
version = "0.1.0"
edition = "2021"
publish = false

[dependencies]
indexmap = "2"
rand = "0.9"
serde_json = "1"
ureq = { version = "3", features = ["json"] }
