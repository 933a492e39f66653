[package]
name = "amadeus_tui"
version = "0.1.0"
edition = "2021"
publish = false

[dependencies]
anyhow = "1"
ratatui = "0.29"
serde_json = "1"
textwrap = "0.16"
ureq = { version = "2", features = ["json"] }
