[package]
name = "wdpkr_core"
version = "0.1.0"
edition = "2021"
publish = false

[dependencies]
anyhow = "1"
async-trait = "0.1"
blake3 = "1"
dirs = "*"
futures-util = "0.3"
globset = "0.4"
ignore = "0.4"
linear-mg = "*"
owo-colors = { version = "4", features = ["supports-colors"] }
reqwest = { version = "0.12", default-features = false, features = ["json"] }
serde = { version = "1", features = ["derive"] }
serde_json = "1"
serde_yaml = "0.9"
tokio = { version = "1", features = ["rt", "macros", "sync", "time"] }
tree-sitter = "*"
tree-sitter-c-sharp = "*"
tree-sitter-cpp = "*"
tree-sitter-go = "*"
tree-sitter-java = "*"
tree-sitter-javascript = "*"
tree-sitter-language = "0.1"
tree-sitter-python = "*"
tree-sitter-rust = "*"
tree-sitter-typescript = "*"
