[package]
name = "verieasy"
version = "0.1.0"
edition = "2021"
publish = false

[dependencies]
anyhow = "1"
clap = { version = "4", features = ["derive"] }
colored = "2"
prettyplease = "0.2"
proc-macro2 = "1"
quote = "1"
rand = "0.8"
serde = { version = "1", features = ["derive"] }
syn = { version = "2", features = ["full", "visit", "visit-mut"] }
toml = "0.8"
