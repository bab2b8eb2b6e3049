[package]
name = "skribbl_bot"
version = "0.1.0"
edition = "2021"
publish = false

[dependencies]
clap = "2.33"
gdk-pixbuf = "0.8"
gio = "0.8"
glib = "0.9"
gtk = "0.8"
image = { version = "0.23", default-features = false, features = ["png", "jpeg"] }
regex = "1"
reqwest = { version = "0.10", features = ["blocking"] }
serde = { version = "1", features = ["derive"] }
serde_json = "1"
uuid = { version = "0.8", features = ["v4"] }
winit = "0.22"
x11 = { version = "2.18", features = ["xlib", "xtest"] }
