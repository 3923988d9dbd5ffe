[package]
name = "run_str_demo"
version = "0.1.0"
edition = "2021"
publish = false

[dependencies]
fs-err = "*"
getopts-macro = "*"
rustc_apfloat = "*"
