[package]
name = "sfc_linter"
version = "0.1.0"
edition = "2021"
publish = false

[dependencies]
clap = { version = "*", features = ["derive"] }
html5gum = "=0.8.4"
ignore = "*"
oxc_allocator = "=0.139.0"
oxc_ast = "=0.139.0"
oxc_parser = "=0.139.0"
oxc_span = "=0.139.0"
rayon = "*"
serde = { version = "*", features = ["derive"] }
serde_json = "*"
