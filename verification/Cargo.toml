[package]
name = "termmd"
version = "0.1.3"
edition = "2021"
publish = false

[dependencies]
anyhow = "1"
base64 = "0.22"
clap = { version = "4", features = ["derive"] }
clap_complete = "4"
clap_mangen = "0.2"
crossterm = "0.29"
dirs = "6"
image = { version = "0.25", default-features = false, features = ["png", "jpeg", "gif", "webp", "bmp", "tiff"] }
libc = "0.2"
notify = "8"
open = "5"
pulldown-cmark = { version = "0.13", default-features = false }
resvg = "0.45"
serde = { version = "1", features = ["derive"] }
syntect = { version = "5", default-features = false, features = ["default-fancy"] }
toml = "0.9"
two-face = { version = "0.4", default-features = false, features = ["syntect-default-fancy"] }
unicode-segmentation = "1"
unicode-width = "0.2"
ureq = "3"
