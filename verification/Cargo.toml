[package]
name = "mdbook-nvim-treesitter"
version = "0.1.0"
edition = "2021"
publish = false

[dependencies]
clap = { version = "=4.6.7", features = ["derive"] }
pistonite-cu = "=0.9.8"
flate2 = "=1.1.10"
full_moon = "=3.0.0"
libloading = "=0.8.9"
mdbook-markdown = "=0.5.4"
mdbook-preprocessor = "=0.5.4"
regex = "=1.13.1"
serde = { version = "=1.0.229", features = ["derive"] }
serde_json = "=1.0.154"
toml = "=1.1.8"
tree-sitter = "=0.27.1"
tree-sitter-language = "=0.1.9"
ureq = "=3.5.1"
