[package]
name = "randr_profiles"
version = "0.1.0"
edition = "2021"
publish = false

[dependencies]
clap = "2.33"
edid = "*"
log = "0.4"
miette = "*"
nom = "3"
thiserror = "1"
x11rb = { version = "*", features = ["randr"] }
