[package]
name = "navigator"
version = "0.1.0"
edition = "2021"
publish = false

[dependencies]
clap = { version = "*", features = ["derive"] }
image = { version = "*", default-features = false, features = ["png", "jpeg", "gif", "bmp", "webp", "ico", "tiff"] }
log = "*"
ratatui = "*"
ratatui-image = { version = "*", default-features = false, features = ["crossterm"] }
resvg = "*"
