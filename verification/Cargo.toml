[package]
name = "name_registry"
version = "0.1.0"
edition = "2021"
publish = false

[dependencies]
bincode = "2"
console = "*"
dialoguer = "*"
indicatif = "*"
