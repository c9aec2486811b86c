[package]
name = "dmi_merge"
version = "0.1.0"
edition = "2021"
publish = false

[dependencies]
anyhow = "1"
git2 = { version = "0.20", default-features = false }
image = { version = "0.25", default-features = false }
lodepng = "3"
png = "0.17"
