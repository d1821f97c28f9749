[package]
name = "fancy_schemers"
version = "0.1.0"
edition = "2021"
publish = false

[dependencies]
linefeed = "*"
