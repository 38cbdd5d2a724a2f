[package]
name = "rusty_krab_manager"
version = "0.1.0"
edition = "2021"
publish = false

[dependencies]
rand = "0.8"
chrono = "0.4"
clap = "3.2"
config = { version = "0.11", default-features = false, features = ["toml"] }
dirs = "4"
termion = "1.5"
tui = "0.19"
