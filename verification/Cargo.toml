[package]
name = "password_maker"
version = "0.1.0"
edition = "2021"
publish = false

[dependencies]
rand = "0.8"
rand_chacha = "0.3"
encoding_rs = "*"
unicode-segmentation = "*"
clap = { version = "4", features = ["derive"] }
clap_complete = "4"
arboard = "*"
