[package]
name = "tab_quicksearch"
version = "0.1.0"
edition = "2021"
publish = false

[dependencies]
nucleo-matcher = "0.3"
unicode-width = "0.2"
zellij-tile = "*"
