[package]
name = "zellij_harpoon"
version = "0.1.0"
edition = "2021"
publish = false

[dependencies]
zellij-tile = "*"
owo-colors = "*"
