[package]
name = "acadrust"
version = "0.5.5"
edition = "2021"
publish = false

[dependencies]
encoding_rs = "0.8"
prost = "0.13"
rayon = "1"
serde = { version = "1", features = ["derive"] }
