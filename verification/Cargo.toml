[package]
name = "taggen"
version = "0.1.0"
edition = "2021"
publish = false

[dependencies]
anyhow = "*"
clap = { version = "*", features = ["derive"] }
clap_complete = "*"
clap_complete_nushell = "*"
clap_mangen = "*"
dialoguer = "*"
dirs = "*"
rand = "*"
redb = "*"
time = { version = "*", features = ["formatting", "parsing"] }

[dev-dependencies]
csv = "*"
