[package]
name = "keypad_calc"
version = "0.1.0"
edition = "2021"
publish = false

[dependencies]
embedded-hal = "=1.0.0"
panic-halt = "1.0.0"
