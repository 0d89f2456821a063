[package]
name = "zj_cal"
version = "0.1.0"
edition = "2021"
publish = false

[dependencies]
icalendar = "*"
chrono = "*"
zellij-tile = "*"
owo-colors = "*"
