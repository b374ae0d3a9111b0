[package]
name = "chat"
version = "0.1.0"
edition = "2021"
publish = false

[dependencies]
anyhow = "1"
chrono = "0.4"
csv = "1"
image = "0.24"
log = "0.4"
slug = "0.1"
stanza = "*"
stderrlog = "0.6"
term_size = "0.3"
thiserror = "1"
threadpool = "1"

[dev-dependencies]
bincode = "1.3"
