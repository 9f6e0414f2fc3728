[package]
name = "jr"
version = "0.1.0"
edition = "2021"
publish = false

[dependencies]
anyhow = "1"
thiserror = "1"
ndarray = "0.15"
num = "0.4"
num-traits = "0.2"
unicode-width = "0.1"
itertools = "0.10"
log = "0.4"
env_logger = "0.10"
cfg-if = "1"
rustyline = "10"
rustyline-derive = "0.7"
colored = "2"
directories = "4"
