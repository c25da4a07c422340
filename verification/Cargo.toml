[package]
name = "chevron"
version = "0.1.0"
edition = "2021"
publish = false

[dependencies]
alacritty_terminal = "=0.26.0"
git2 = { version = "=0.21.0", default-features = false, features = ["vendored-libgit2"] }
image = { version = "=0.25.10", default-features = false, features = ["png"] }
inquire = "=0.9.4"
libc = "=0.2.191"
notify = "=8.2.1"
rusqlite = { version = "=0.41.1", features = ["bundled"] }
serde = { version = "=1.0.229", features = ["derive"] }
toml = "=1.1.8"
ulid = "=1.2.1"

[dev-dependencies]
tempfile = "=3.27.0"
vt100 = "=0.18.1"
