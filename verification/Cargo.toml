[package]
name = "imperative_compiler"
version = "0.1.0"
edition = "2021"
publish = false

[dependencies]
unicode-ident = "1"
anyhow = "1"
culpa = "1"
clap = { version = "4", features = ["derive"] }
