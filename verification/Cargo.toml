[package]
name = "textutils"
version = "0.1.0"
edition = "2021"
publish = false

[dependencies]
actix-web = { version = "4", default-features = false, features = ["macros"] }
clap = "4"
csv = "1"
regex = "1"
serde = { version = "1", features = ["derive"] }
walkdir = "2"
