[package]
name = "sfsm"
version = "0.1.0"
edition = "2021"
publish = false

[dependencies]
convert_case = "=0.4.0"
proc-macro2 = { version = "=1.0.107", default-features = false }
quote = { version = "=1.0.47", default-features = false }
syn = { version = "=1.0.109", default-features = false, features = ["derive", "parsing", "printing"] }
