[package]
name = "isf"
version = "0.1.0"
edition = "2021"
publish = false

[dependencies]
anyhow = "=1.0.104"
clap = { version = "=4.6.7", features = ["derive"] }
comrak = "=0.55.0"
prettyplease = "=0.3.0"
proc-macro2 = "=1.0.107"
quote = "=1.0.47"
serde = { version = "=1.0.229", features = ["derive"] }
syn = { version = "=3.0.6", features = ["full"] }
