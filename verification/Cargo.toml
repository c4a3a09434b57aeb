[package]
name = "volta_analysis"
version = "0.1.0"
edition = "2021"
publish = false

[dependencies]
fixedbitset = "*"
id_collections = "*"
rug = "*"
serde = { version = "1", features = ["derive"] }
