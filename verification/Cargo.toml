[package]
name = "titik"
version = "0.1.0"
edition = "2021"
publish = false

[dependencies]
crossterm = "=0.29.0"
image = "=0.25.10"
ito-canvas = "*"
sauron_vdom = "=0.26.0"
stretch = "=0.3.2"
