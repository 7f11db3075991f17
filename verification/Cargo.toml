[package]
name = "cglsys"
version = "0.1.0"
edition = "2021"

[dependencies]
cgmath = "0.18"
proc-macro2 = "1"
quote = "1"
syn = { version = "1", features = ["full"] }
