[package]
name = "gritty"
version = "0.1.0"
edition = "2021"
publish = false

[dependencies]
anyhow = "=1.0.104"
crossterm = "=0.28.1"
directories = "=5.0.1"
humansize = "=2.1.3"
jiff = "=0.2.39"
libc = "=0.2.191"
nix = { version = "=0.29.0", features = ["fs", "hostname", "process", "signal", "term", "user"] }
opener = "=0.7.2"
serde = { version = "=1.0.229", features = ["derive"] }
serde_json = "=1.0.154"
shlex = "=1.3.0"
terminal_size = "=0.4.4"
tokio = { version = "=1.54.1", features = ["full"] }
toml = "=0.8.23"

[dev-dependencies]
tempfile = "=3.27.0"
