[package]
name = "memfs"
version = "0.1.0"
edition = "2021"
publish = false

[dependencies]
chrono = "=0.4.45"
clap = { version = "=4.6.7", features = ["derive"] }
dokan = "0.2"
uuid = { version = "=1.29.0", features = ["v4"] }
widestring = "=0.4.3"
winapi = { version = "=0.3.9", features = ["ntdef", "ntstatus", "winnt"] }
