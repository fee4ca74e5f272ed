[package]
name = "better_launcher"
version = "0.1.0"
edition = "2021"
publish = false

[dependencies]
chrono = "0.4"
evalexpr = "*"
gtk4 = { version = "*", features = ["v4_12"] }
libadwaita = "*"
gtk4-layer-shell = "*"
gio = "*"
glib = "*"
tokio = { version = "1", features = ["rt-multi-thread", "macros"] }
xdg = "*"
once_cell = "1"
lazy_static = "1"
