[package]
name = "json_path"
version = "0.1.0"
edition = "2021"
publish = false

[dependencies]
regex = "1"
zed_extension_api = "*"
