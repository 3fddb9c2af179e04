[package]
name = "hexpng"
version = "0.1.0"
edition = "2021"
publish = false

[dependencies]
compression = "=0.1.5"
clappers = "=2.0.3"
fancy = "=0.3.1"
log = "=0.4.34"
rand = "=0.8.8"
simple_logger = "=5.2.0"
