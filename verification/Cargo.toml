[package]
name = "folderplay"
version = "0.1.0"
edition = "2021"
publish = false

[dependencies]
rusqlite = { version = "0.32", features = ["bundled"] }
gettext-rs = { version = "0.7", features = ["gettext-system"] }
gio = "0.20"
glib = "0.20"
gtk4 = { version = "0.9", features = ["v4_12"] }
libadwaita = { version = "0.7", features = ["v1_6"] }
gstreamer = "0.23"
gstreamer-pbutils = "0.23"
