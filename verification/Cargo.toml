[package]
name = "rssg"
version = "0.1.0"
edition = "2021"
publish = false

[dependencies]
clap = "4"
dialoguer = "*"
image = { version = "0.25", default-features = false, features = ["png", "jpeg", "bmp"] }
notify = "*"
pulldown-cmark = { version = "*", default-features = false, features = ["html"] }
serde = { version = "1", features = ["derive"] }
syntect = { version = "5", default-features = false, features = ["default-fancy"] }
tiny_http = "*"
webp = "*"
toml = "*"
two-face = { version = "*", default-features = false, features = ["syntect-fancy"] }

[dev-dependencies]
serde_json = "1"
