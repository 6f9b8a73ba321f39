[package]
name = "dsfmt"
version = "0.1.0"
edition = "2021"
publish = false

[dependencies]
tree-sitter = "0.25"
tree-sitter-html = "0.23"
tree-sitter-typescript = "0.23"
clap = { version = "4", features = ["derive"] }
ignore = "0.4"
thiserror = "2"
