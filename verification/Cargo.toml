[package]
name = "cargo_minimize"
version = "0.1.0"
edition = "2021"
publish = false

[dependencies]
cargo-edit = { version = "=0.6.0", default-features = false, features = ["cli"] }
cargo_metadata = "=0.9.1"
error-chain = "=0.12.4"
failure = "=0.1.8"
semver = "=0.9.0"
structopt = "=0.3.26"
termcolor = "=1.4.1"
url = "=2.5.8"
