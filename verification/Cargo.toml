[package]
name = "stest_lib"
version = "0.1.0"
edition = "2021"
publish = false

[dependencies]
url = "2"
hyper = "0.10"
hyper-timeout-connector = "0.1"
xml-rs = "*"
csv = "1"
clap = "4"
chrono = "0.4"
