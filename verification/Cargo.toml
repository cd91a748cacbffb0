[package]
name = "fsearch_core"
version = "0.1.0"
edition = "2021"
publish = false

[dependencies]
pcre2 = "0.2"
regex = "1"
unicode-segmentation = "1"
unicode-normalization = "0.1"
crossbeam-channel = "0.5"
parking_lot = "0.12"
once_cell = "1"
rayon = "1"
