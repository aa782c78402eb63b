[package]
name = "mcm-meta-helper"
version = "0.1.0"
edition = "2021"
publish = false

[dependencies]
byte-slice-cast = "1"
clap = { version = "4", features = ["derive"] }
comfy-table = "6"
eyre = "0.6"
jsonschema = { version = "0.17", default-features = false }
log = "0.4"
loggerv = "0.7"
once_cell = "1"
owo-colors = "3"
serde_json = "1"
term_grid = "0.2"
terminal_size = "0.2"
ucs2 = "0.3"
walkdir = "2"
