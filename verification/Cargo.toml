[package]
name = "elint"
version = "0.1.0"
edition = "2021"
publish = false

[dependencies]
erl_tokenize = "=0.11.1"
erl_pp = "=0.3.2"
unicode-width = "=0.2.3"
noargs = "=0.4.3"
nojson = "=0.3.15"
