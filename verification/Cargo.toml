[package]
name = "t32_language_server"
version = "0.1.0"
edition = "2021"
publish = false

[dependencies]
serde = { version = "1", features = ["derive"] }
serde_json = "1"
serde_repr = "*"
tree-sitter = "*"
tree-sitter-t32 = "*"
url = "2"
