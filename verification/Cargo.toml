[package]
name = "gen_messages"
version = "0.1.0"
edition = "2021"
publish = false

[dependencies]
serde_json = "*"
convert_case = "*"
walkdir = "*"
