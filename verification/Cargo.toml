[package]
name = "wallpaper_selector"
version = "0.1.0"
edition = "2021"
publish = false

[dependencies]
serde = { version = "1", features = ["derive"] }
serde_json = "1"
gtk4 = { version = "*", features = ["v4_12"] }
gtk4-layer-shell = "*"
gdk-pixbuf = "*"
libc = "0.2"
