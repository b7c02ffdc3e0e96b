[package]
name = "codeskel"
version = "0.1.0"
edition = "2021"
publish = false

[dependencies]
anyhow = "=1.0.104"
chrono = "=0.4.45"
clap = { version = "=4.6.7", features = ["derive"] }
fs2 = "=0.4.3"
globset = "=0.4.21"
rayon = "=1.12.0"
roxmltree = "=0.20.0"
serde = { version = "=1.0.229", features = ["derive"] }
serde_json = "=1.0.154"
tree-sitter = "=0.25.10"
tree-sitter-c-sharp = "=0.23.5"
tree-sitter-cpp = "=0.23.4"
tree-sitter-go = "=0.23.4"
tree-sitter-java = "=0.23.5"
tree-sitter-javascript = "=0.23.1"
tree-sitter-ruby = "=0.23.1"
tree-sitter-rust = "=0.23.3"
tree-sitter-typescript = "=0.23.2"
walkdir = "=2.5.0"

[dev-dependencies]
tempfile = "=3.27.0"
