[package]
name = "snob"
version = "0.1.0"
edition = "2021"
publish = false

[dependencies]
anyhow = "*"
better-panic = "*"
clap = { version = "*", features = ["derive"] }
globset = "*"
ignore = "*"
log = "*"
pyo3 = "*"
rayon = "*"
rustpython-ast = "*"
rustpython-parser = "*"
serde = { version = "*", features = ["derive"] }
stderrlog = "*"
toml = "*"
