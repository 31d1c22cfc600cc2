[package]
name = "sf_search"
version = "0.1.0"
edition = "2021"
publish = false

[dependencies]
aho-corasick = "*"
clap = "*"
colored = "*"
ctrlc = "*"
dirs = "*"
flexi_logger = "*"
indicatif = "*"
log = "*"
walkdir = "*"
