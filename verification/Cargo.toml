[package]
name = "code_typos"
version = "0.1.0"
edition = "2021"
publish = false

[dependencies]
anyhow = "=1.0.104"
clap = { version = "=4.6.7", features = ["derive"] }
glob = "=0.3.4"
rayon = "=1.12.0"
tree-sitter = "=0.27.1"
tree-sitter-typescript = "=0.23.2"
unicode-segmentation = "=1.13.3"

[dev-dependencies]
fancy-regex = "=0.20.0"
