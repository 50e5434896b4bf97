[package]
name = "boop_pty"
version = "0.1.0"
edition = "2021"
publish = false

[dependencies]
regex = "1"
strip-ansi-escapes = "0.2"
serde = { version = "1", features = ["derive"] }
serde_json = "1"
thiserror = "1"
libc = "0.2"
nix = { version = "0.27", features = ["term", "ioctl", "fs"] }
mio = { version = "0.8", features = ["os-poll", "os-ext"] }
portable-pty = "0.8"
signal-hook = "0.3"
