[package]
name = "glam"
version = "0.1.0"
edition = "2021"
publish = false

[dependencies]
serde_json = "1"
serde = { version = "1", features = ["derive"] }
globset = "0.4"
anyhow = "1"
argh = "0.1"
tera = "1"
libm = "0.2"
rustfmt-wrapper = "*"
git2 = { version = "*", default-features = false }
