[package]
name = "ui_toolkit"
version = "0.1.0"
edition = "2021"
publish = false

[dependencies]
ab_glyph = "=0.2.32"
dioxus-core = "=0.7.10"
dioxus-devtools = "=0.7.10"
log = "=0.4.35"
notify = "=8.2.1"
