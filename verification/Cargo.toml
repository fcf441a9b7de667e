[package]
name = "semantic_tokens"
version = "0.1.0"
edition = "2021"
publish = false

[dependencies]
log = "0.4"
lru = "*"
lsp-types = "0.95"
regex = "1"
