[package]
name = "zed_ctrmml"
version = "0.1.0"
edition = "2021"
publish = false

[dependencies]
pathdiff = "0.2"
url = "2"
walkdir = "2"
tokio = { version = "1", features = ["macros", "rt-multi-thread", "io-std"] }
tower-lsp = "0.20"
zed_extension_api = "*"
