[package]
name = "rfshare"
version = "0.17.1"
edition = "2021"
publish = false

[dependencies]
aes-gcm = "0.10"
rand = "0.8"
sha2 = "0.10"
x25519-dalek = "2"
dirs = "6"
minreq = { version = "2", features = ["https"] }
eframe = { version = "0.33", default-features = false, features = ["default_fonts", "glow", "x11"] }
egui = { version = "0.33", default-features = false, features = ["default_fonts"] }
egui_extras = { version = "0.33", default-features = false, features = ["image"] }
egui_material_icons = "0.5"
image = { version = "0.25", default-features = false, features = ["png"] }
rfd = { version = "0.15", default-features = false, features = ["gtk3"] }
gtk = "0.18"
tray-icon = { version = "0.21", default-features = false }
