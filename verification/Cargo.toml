[package]
name = "tach"
version = "0.1.0"
edition = "2021"
publish = false

[dependencies]
pyo3 = "=0.22.6"
ruff_source_file = "=0.0.5"
ruff_text_size = "=0.0.5"
serde = { version = "=1.0.229", features = ["derive"] }
serde_json = "=1.0.154"
toml_edit = "=0.22.27"
