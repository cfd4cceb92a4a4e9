[package]
name = "scout-audit"
version = "0.1.0"
edition = "2021"
publish = false

[dependencies]
semver = "1"
edit-distance = "2"
toml = "0.8"
serde = { version = "1", features = ["derive"] }
serde_json = "1"
strum = { version = "0.26", features = ["derive"] }
ureq = { version = "2", features = ["json"] }
reqwest = { version = "0.12", features = ["blocking"] }
capture-stdio = "0.1"
