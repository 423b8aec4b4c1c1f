[package]
name = "ingest-parser"
version = "0.1.0"
edition = "2021"
publish = false

[dependencies]
anyhow = "=1.0.104"
rayon = "=1.12.0"
serde = { version = "=1.0.229", features = ["derive"] }
serde_json = "=1.0.154"
streaming-iterator = "=0.1.9"
tree-sitter = "=0.24.7"
tree-sitter-css = "=0.23.2"
tree-sitter-go = "=0.23.4"
tree-sitter-html = "=0.23.2"
tree-sitter-javascript = "=0.23.1"
tree-sitter-kotlin-ng = "=1.1.0"
# The last grammar of Rust that tree-sitter 0.24 can load.
tree-sitter-rust = "=0.23.3"
tree-sitter-typescript = "=0.23.2"
