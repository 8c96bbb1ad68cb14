[package]
name = "specs_static"
version = "0.1.0"
edition = "2021"
publish = false

[dependencies]
hibitset = "*"
specs = "*"
