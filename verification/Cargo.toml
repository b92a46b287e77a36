[package]
name = "rarog"
version = "0.1.0"
edition = "2021"
publish = false

[dependencies]
url = "=2.5.8"
psl = "=2.1.246"
weedle = "=0.13.1"
clipboard-win = "5"
