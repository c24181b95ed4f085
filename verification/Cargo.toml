[package]
name = "matlab_lsp"
version = "0.1.0"
edition = "2021"
publish = false

[dependencies]
anyhow = "*"
chardetng = "*"
clap = { version = "*", features = ["derive", "env"] }
crossbeam-channel = "*"
encoding_rs = "*"
log = "*"
lsp-server = "*"
lsp-types = "*"
process_alive = "*"
serde = { version = "*", features = ["derive"] }
serde_json = "*"
simplelog = "*"
tree-sitter = "*"
tree-sitter-matlab = "*"
xdg = "*"
