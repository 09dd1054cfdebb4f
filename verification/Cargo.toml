[package]
name = "limpa_downloads"
version = "0.1.0"
edition = "2021"
publish = false

[dependencies]
serde_json = "1.0.154"
pancurses = "0.17.0"
