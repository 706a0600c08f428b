[package]
name = "macro_keypad"
version = "0.1.0"
edition = "2021"
publish = false

[dependencies]
phf = "*"
phf_macros = "*"
rppal = "*"
mouse-keyboard-input = "*"

[dev-dependencies]
phf_generator = "*"
