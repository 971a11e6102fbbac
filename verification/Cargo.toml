[package]
name = "veridian_holdem"
version = "0.1.0"
edition = "2021"
publish = false

[dependencies]
arcis-imports = "=0.3.0"
anchor-lang = { version = "0.31", features = ["init-if-needed"] }
anchor-spl = "0.31"
arcium-anchor = "0.3"
arcium-client = { version = "0.3", default-features = false }
arcium-macros = "0.3"
