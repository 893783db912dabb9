[package]
name = "missioncenter"
version = "0.1.0"
edition = "2021"
publish = false

[dependencies]
textdistance = "=1.1.1"
arrayvec = "=0.7.8"
gtk4 = { version = "=0.11.5", features = ["v4_10"] }
libadwaita = { version = "=0.9.2", features = ["v1_7"] }
glib = "=0.22.10"
