[package]
name = "guitar"
version = "0.1.0"
edition = "2021"
publish = false

[dependencies]
gix = { version = "*", features = ["blocking-network-client"] }
git2 = { version = "*", default-features = false }
chrono = "*"
im = "*"
smallvec = "1"
iddqd = "*"
indexmap = "*"
ratatui = "*"
crossterm = "*"
dirs = "*"
facet = "*"
facet-json = "*"

[dev-dependencies]
tempfile = "*"
