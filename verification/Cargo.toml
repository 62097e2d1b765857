[package]
name = "parquetta"
version = "0.1.0"
edition = "2021"
publish = false

[dependencies]
gtk4 = "=0.11.5"
libadwaita = "=0.9.2"
gio = "=0.22.10"
glib = "=0.22.10"
