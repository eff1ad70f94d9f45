[package]
name = "hex_ls"
version = "0.5.0"
edition = "2021"
publish = false

[dependencies]
lsp-server = "0.7"
lsp-types = "0.97"
regex = "1"
serde_json = "1"
ureq = { version = "2", features = ["json"] }
zed_extension_api = "*"
