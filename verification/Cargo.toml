[package]
name = "hugr_jeff"
version = "0.1.0"
edition = "2021"
publish = false

[dependencies]
hugr = "=0.30.3"
tket = "=0.22.0"
clap = { version = "=4.6.7", features = ["derive"] }
serde = { version = "=1.0.229", features = ["derive"] }
typetag = "=0.2.23"
