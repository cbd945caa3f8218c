[package]
name = "sd_card"
version = "0.1.0"
edition = "2021"
publish = false

[dependencies]
embedded-sdmmc = "=0.3.0"
embedded-hal = "0.2"
