[package]
name = "rescue_shell"
version = "0.1.0"
edition = "2021"
publish = false

[dependencies]
anyhow = "1"
async-compression = { version = "0.4", features = ["tokio", "lz4"] }
base64 = "=0.22.1"
bytes = "=1.12.1"
clap = { version = "4", default-features = false, features = ["std", "help", "usage", "error-context", "derive", "env"] }
crossterm = { version = "=0.29.0", default-features = false, features = ["events"] }
futures-util = { version = "0.3", features = ["sink"] }
getrandom = "=0.4.3"
hex = "=0.4.3"
iroh = { version = "=1.4.1", default-features = false, features = ["tls-ring", "unstable-net-report"] }
libc = "0.2"
n0-error = "=1.0.1"
parking_lot = "0.12"
tokio = { version = "1", features = ["rt-multi-thread", "macros", "sync", "time", "io-util", "io-std", "signal"] }
tokio-util = { version = "0.7", features = ["codec"] }
url = "2"
vt100 = "=0.16.2"
vte = "=0.15.0"
wincode = { version = "=0.6.3", features = ["derive"] }
