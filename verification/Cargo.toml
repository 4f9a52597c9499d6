[package]
name = "invaders"
version = "0.1.0"
edition = "2021"
publish = false

[dependencies]
rusty_time = "=0.11.3"
crossterm = "=0.29.0"
rusty_audio = "=1.4.1"
