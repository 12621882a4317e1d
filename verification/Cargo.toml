[package]
name = "drp"
version = "0.1.0"
edition = "2021"
publish = false

[dependencies]
capnp = "*"
capnp-nonblock = "*"
sodiumoxide = "*"
rustc-serialize = "*"
mio = { version = "*", features = ["net", "os-poll", "os-ext"] }
libc = "*"
nix = { version = "*", features = ["signal"] }
bytes = "*"
ncurses = "*"
