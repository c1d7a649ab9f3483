[package]
name = "tetris"
version = "0.1.0"
edition = "2021"
publish = false

[dependencies]
rand = "0.3"
time = "0.1"
log = "0.3"
piston_window = "*"
