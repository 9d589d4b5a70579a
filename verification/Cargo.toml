[package]
name = "field_assembly"
version = "0.1.0"
edition = "2021"
publish = false

[dependencies]
num-traits = "=0.2.19"
rand = "=0.7.3"
rayon = "=1.12.0"

[dev-dependencies]
regex = "=1.13.1"
