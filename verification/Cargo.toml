[package]
name = "trace_parse"
version = "0.1.0"
edition = "2021"
publish = false

[dependencies]
rayon = "=1.12.0"
rustc-hash = "2"
tree-sitter = "=0.25.10"
tree-sitter-c = "=0.24.2"
tree-sitter-cpp = "=0.23.4"
