[package]
name = "autocontain"
version = "0.1.0"
edition = "2021"
publish = false

[dependencies]
tree-sitter = "*"
tree-sitter-python = "*"
rusqlite = { version = "*", features = ["bundled"] }
walkdir = "*"
git2 = { version = "*", default-features = false }
reqwest = { version = "*", default-features = false, features = ["blocking", "json"] }
serde_json = "*"
dotenv = "*"
once_cell = "*"
