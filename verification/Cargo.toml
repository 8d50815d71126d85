[package]
name = "osm_area"
version = "0.1.0"
edition = "2021"
publish = false

[dependencies]
hashbrown = { version = "*", features = ["serde"] }
serde = { version = "1", features = ["derive"] }
