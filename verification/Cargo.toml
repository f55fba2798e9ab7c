[package]
name = "tt-rust"
version = "0.1.0"
edition = "2021"
publish = false

[dependencies]
ustr = "1"
sha3 = "0.10"
rustyline = { version = "12", features = ["derive"] }
rusqlite = "0.29"
serde = { version = "1", features = ["derive"] }
serde-xdr = "0.6"
serde_yaml = "0.9"
tokio = { version = "1", features = ["full"] }
crossterm = { version = "0.26", features = ["event-stream"] }
futures = "0.3"
futures-util = "0.3"
clap = { version = "4", features = ["derive"] }
config = { version = "0.13", default-features = false, features = ["yaml"] }
reqwest = { version = "0.11", default-features = false, features = ["stream"] }
sysinfo = { version = "0.29", default-features = false }
gethostname = "0.4"
fuser = { version = "0.14", default-features = false }
libc = "0.2"
bytebuffer = "2"
regex = "1"
tracing = "0.1"
tracing-subscriber = "0.3"
once_cell = "1"
santiago = "1"
