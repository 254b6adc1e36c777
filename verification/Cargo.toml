[package]
name = "charmander"
version = "0.1.0"
edition = "2021"
publish = false

[dependencies]
ansi_term = "0.12"
clap = "2"
getopts = "0.2"
unicode_names = "0.1"
unicode-normalization = "0.1"
unicode-width = "0.1"
