[package]
name = "heic_wallpaper"
version = "0.1.0"
edition = "2021"
publish = false

[dependencies]
anyhow = "*"
base64 = "*"
chrono = "*"
clap = "*"
colored = "*"
indicatif = "*"
libheif-rs = "*"
plist = "*"
png = "*"
