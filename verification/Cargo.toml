[package]
name = "dprint_ts_parsing"
version = "0.1.0"
edition = "2021"
publish = false

[dependencies]
dprint-swc-ext = "=0.27.1"
globset = "=0.4.21"
percent-encoding = "=2.3.2"
rustc-hash = "=2.1.3"
