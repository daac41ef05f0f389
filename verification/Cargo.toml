[package]
name = "csv2vviz"
version = "0.1.0"
edition = "2021"
publish = false

[dependencies]
zip = "*"
csv = "*"
clap = { version = "*", features = ["derive"] }
serde = { version = "*", features = ["derive"] }
serde_json = "*"
euclid = "*"
