[package]
name = "pschema"
version = "0.1.0"
edition = "2021"
publish = false

[dependencies]
bimap = "*"
rio_api = "*"
rio_turtle = "*"
