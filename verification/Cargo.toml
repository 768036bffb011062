[package]
name = "vector_top"
version = "0.1.0"
edition = "2021"
publish = false

[dependencies]
exitcode = "*"
url = "*"
serde_json = "*"
