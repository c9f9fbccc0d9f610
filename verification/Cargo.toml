[package]
name = "pixel_automata"
version = "0.1.0"
edition = "2021"
publish = false

[dependencies]
getrandom = "0.2"
byteorder = "1"

[dev-dependencies]
randomize = "*"
line_drawing = "*"
