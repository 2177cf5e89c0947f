[package]
name = "fmcw_tlv"
version = "0.1.0"
edition = "2021"
publish = false

[dependencies]
plotters = "0.3"
serde = { version = "1", features = ["derive"] }
serde_json = "1"
serial2 = "0.2"
