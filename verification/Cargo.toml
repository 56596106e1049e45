[package]
name = "ledger_shell"
version = "0.1.0"
edition = "2021"
publish = false

[dependencies]
sha2 = "0.10"
rand = "0.8"
orion = "0.17"
prost = "0.12"
rayon = "1"
log = "0.4"
thiserror = "1"
serde = { version = "1", features = ["derive"] }
toml = "0.5"
