[package]
name = "niamc"
version = "0.1.0"
edition = "2021"
publish = false

[dependencies]
regex = "1"
ariadne = "0.5"
argh = "0.1"
clap = { version = "4", features = ["derive"] }
codespan-reporting = "0.11"
