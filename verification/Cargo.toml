[package]
name = "mdbook_dice"
version = "0.1.0"
edition = "2021"
publish = false

[dependencies]
semver = "1"
clap = "4"
serde_json = "1"
mdbook = { version = "0.4", default-features = false }

[dev-dependencies]
regex = "1"
