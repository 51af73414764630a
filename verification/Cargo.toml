[package]
name = "plsfmt"
version = "0.1.0"
edition = "2021"
publish = false

[dependencies]
syn = { version = "2", features = ["full", "visit", "extra-traits"] }
proc-macro2 = { version = "1", features = ["span-locations"] }
prettyplease = "0.2"
quote = "1"
clap = { version = "4", features = ["derive"] }
clap-cargo = "*"
cargo_metadata = "*"
glob = "0.3"
