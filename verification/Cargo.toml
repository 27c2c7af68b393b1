[package]
name = "rheo"
version = "0.1.0"
edition = "2021"
publish = false

[dependencies]
typst-syntax = "=0.15.1"
typst-utils = "=0.15.1"
html5ever = "=0.39.0"
markup5ever_rcdom = "=0.39.0"
toml = "=1.1.8"
serde = { version = "=1.0.229", features = ["derive"] }
dirs = "=7.0.0"
walkdir = "=2.5.0"
globset = "=0.4.21"
notify = "=8.2.1"
semver = "=1.0.28"
toml_edit = "=0.22.27"
