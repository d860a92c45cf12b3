[package]
name = "nwb_view"
version = "0.1.0"
edition = "2021"
publish = false

[dependencies]
egui = "0.22"
egui_extras = "0.22"
hdf5 = "0.8"
image = "0.24"
