[package]
name = "airust"
version = "0.1.0"
edition = "2021"
publish = false

[dependencies]
indexmap = "=2.14.2"
once_cell = "=1.21.4"
pdf-extract = "=0.12.1"
serde = { version = "=1.0.229", features = ["derive"] }
serde_json = "=1.0.154"
strsim = "=0.11.1"
thiserror = "=2.0.21"
unicode-normalization = "=0.1.26"
