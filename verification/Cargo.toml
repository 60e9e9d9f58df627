[package]
name = "cargo_fel4"
version = "0.1.0"
edition = "2021"
publish = false

[dependencies]
syn = { version = "*", features = ["full"] }
structopt = "*"
log = "*"
colored = "*"
cargo_metadata = "*"
toml = "*"
fel4-config = "*"
