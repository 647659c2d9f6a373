[package]
name = "usage"
version = "0.1.0"
edition = "2021"
publish = false

[dependencies]
kdl = "=4.7.1"
indexmap = { version = "=2.14.2", features = ["serde"] }
clap = { version = "=4.6.7", features = ["derive", "string"] }
miette = "=5.10.0"
serde = { version = "=1.0.229", features = ["derive"] }
serde_json = "=1.0.154"
log = "=0.4.34"
xx = "=2.6.3"
