[package]
name = "mdterm"
version = "0.1.0"
edition = "2021"
publish = false

[dependencies]
pulldown-cmark = "0.11"
comfy-table = { version = "7", default-features = false }
crossterm = "0.28"
unicode-width = "0.2"
ratatui = "0.29"
tree-sitter-highlight = "*"
tree-sitter-bash = "*"
tree-sitter-python = "*"
tree-sitter-javascript = "*"
tree-sitter-typescript = "*"
tree-sitter-json = "*"
tree-sitter-toml-ng = "*"
tree-sitter-yaml = "*"
tree-sitter-rust = "*"
tree-sitter-css = "*"
tree-sitter-html = "*"
tree-sitter-sequel = "*"
tree-sitter-java = "*"
tree-sitter-kotlin-codanna = "*"
tree-sitter-dart = "*"
tree-sitter-hcl = "*"
tree-sitter-xml = "*"
