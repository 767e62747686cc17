[package]
name = "mdns-reflector"
version = "0.1.0"
edition = "2021"
publish = false

[dependencies]
clap = { version = "4", features = ["cargo", "derive"] }
color-eyre = { version = "0.6", features = ["capture-spantrace", "track-caller"] }
libc = "0.2"
mimalloc = "0.1"
socket2 = { version = "0.6", features = ["all"] }
syslog-tracing = "0.3"
tokio = { version = "1", features = ["macros", "net", "rt-multi-thread", "signal", "time"] }
tokio-util = { version = "0.7", features = ["rt"] }
tracing = "0.1"
tracing-error = "0.2"
tracing-subscriber = { version = "0.3", features = ["env-filter"] }
