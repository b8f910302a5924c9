[package]
name = "photoframe_core"
version = "0.1.0"
edition = "2021"
publish = false

[dependencies]
image = { version = "*", default-features = false, features = ["png", "jpeg"] }
rusttype = "*"
css-color = "*"
chrono = "*"
kamadak-exif = "*"
glob = "*"
rand = "*"
anyhow = "*"
toml_edit = "*"
reqwest = { version = "*", default-features = false, features = ["blocking", "multipart"] }
