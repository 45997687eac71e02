[package]
name = "turing_graph"
version = "0.1.0"
edition = "2021"
publish = false

[dependencies]
eframe = { version = "0.31", default-features = false, features = ["default_fonts", "glow", "x11"] }
egui = "0.31"
egui_extras = { version = "0.31", features = ["image"] }
egui_flex = "0.3"
itertools = "0.14"
poll-promise = "0.3"
rand = "0.9"
rfd = "0.15"
unicode-segmentation = "1"
