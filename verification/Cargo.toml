[package]
name = "fastkmers"
version = "0.1.0"
edition = "2021"
publish = false

[dependencies]
regex = "=1.13.1"
clap = "=4.6.7"
kseq = "=0.2.8"
rayon = "=1.12.0"
serde_json = "=1.0.151"
