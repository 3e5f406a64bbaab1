[package]
name = "video_splits"
version = "0.1.0"
edition = "2021"
publish = false

[dependencies]
gtk4 = "0.9"
gstreamer = "0.23"
glib = "0.20"
gio = "0.20"
gst-plugin-gtk4 = "0.13"
once_cell = "1"
