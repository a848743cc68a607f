[package]
name = "killrs"
version = "0.1.0"
edition = "2021"
publish = false

[dependencies]
sysinfo = "=0.29.11"
fs-err = "=3.3.2"
spin_sleep = "=1.3.3"
clap = { version = "4", features = ["derive"] }
tracing = "0.1"
tracing-subscriber = "0.3"
crossterm = "=0.25.0"
tui = "=0.19.0"

[dev-dependencies]
duct = "=0.13.7"
