[package]
name = "rigging"
version = "0.1.0"
edition = "2021"
publish = false

[dependencies]
crossterm = "0.28"
unicode-width = "*"
strip-ansi-escapes = "*"
strsim = "*"
heck = "*"
markdown = "1.0.0-alpha.21"
tree-sitter-highlight = "*"
tree-sitter-rust = "*"
tree-sitter-bash = "*"
tree-sitter-python = "*"
tree-sitter-javascript = "*"
tree-sitter-typescript = "*"
tree-sitter-go = "*"
tree-sitter-json = "*"
tree-sitter-yaml = "*"
tree-sitter-toml-ng = "*"
tokio = { version = "1", features = ["full"] }
serde = { version = "1", features = ["derive"] }
atoman = "*"
macron = "*"
