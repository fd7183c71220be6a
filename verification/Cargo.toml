[package]
name = "ouroboros-dfg"
version = "0.1.0"
edition = "2021"
publish = false

[dependencies]
egg = "0.9.5"
tree-sitter = "0.25.10"
tree-sitter-python = "0.23.6"
serde = { version = "1", features = ["derive"] }
serde_json = "1"
tokio = { version = "1", features = ["rt", "rt-multi-thread", "sync"] }
pyo3 = "0.26"
