[package]
name = "sunrise"
version = "0.1.0"
edition = "2021"
publish = false

[dependencies]
chrono = "0.4"
directories = "*"
eframe = "0.17"
itertools = "0.10"
nom = "7"
regex = "1"
reqwest = { version = "0.11", features = ["blocking", "json"] }
semver = "1"
serde_json = "1"
walkdir = "2"
webbrowser = "*"
