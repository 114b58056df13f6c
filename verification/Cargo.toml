[package]
name = "sampo_core"
version = "0.1.0"
edition = "2021"
publish = false

[dependencies]
geo = "*"
geojson = "*"
serde = { version = "*", features = ["derive"] }
serde_json = "*"
