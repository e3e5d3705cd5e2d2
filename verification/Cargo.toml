[package]
name = "sitegen"
version = "0.1.0"
edition = "2021"
publish = false

[dependencies]
base64 = "0.22"
comrak = { version = "*", default-features = false }
fontdue = "0.9"
image = { version = "0.25", default-features = false, features = ["png", "jpeg"] }
lazy_static = "1"
merman = "*"
minify-html = "*"
serde = { version = "1", features = ["derive"] }
serde_json = "1"
tera = { version = "1", default-features = false }
toml = "*"
zip = { version = "*", default-features = false, features = ["deflate"] }
