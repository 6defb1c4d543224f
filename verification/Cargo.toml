[package]
name = "rt_vt"
version = "0.1.0"
edition = "2021"
publish = false

[dependencies]
alacritty_terminal = "*"
libc = "0.2"
egui = "*"
