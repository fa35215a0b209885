[package]
name = "fluvio_core"
version = "0.1.0"
edition = "2021"
publish = false

[dependencies]
inflections = "1.1"
rand = "0.8"
proc-macro2 = "1"
quote = "1"
syn = { version = "1", features = ["full"] }
serde = { version = "1", features = ["derive"] }
serde_json = "1"
structopt = "0.3"
