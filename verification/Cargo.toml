[package]
name = "decklock"
version = "0.3.1"
edition = "2021"
publish = false

[dependencies]
unicode-normalization = "*"
serde = { version = "1", features = ["derive"] }
serde_json = "1"
toml = "*"
clap = { version = "4", features = ["derive"] }
tempfile = "3"
socket2 = { version = "*", features = ["all"] }
libc = "0.2"
zeroize = "1"
fluent-bundle = "*"
unic-langid = "*"
