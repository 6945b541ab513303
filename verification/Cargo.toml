[package]
name = "color_table"
version = "0.1.0"
edition = "2021"
publish = false

[dependencies]
rangemap = "*"
roaring = "*"
memmap2 = "*"
parking_lot = "*"
thiserror = "*"

[dev-dependencies]
fastrand = "*"
