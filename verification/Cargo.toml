[package]
name = "blockmap"
version = "0.1.0"
edition = "2021"
publish = false

[dependencies]
anvil-region = "*"
clap = { version = "*", features = ["derive"] }
futures = "*"
googleprojection = "*"
indicatif = "*"
named-binary-tag = "*"
osmpbf = "*"
tiny-skia = "*"
tokio = { version = "*", features = ["full"] }
