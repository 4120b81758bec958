[package]
name = "dwarf_index"
version = "0.1.0"
edition = "2021"
publish = false

[dependencies]
gimli = "*"
indexmap = "*"
serde = { version = "*", features = ["derive"] }
serde_json = "*"
fallible-iterator = "*"
