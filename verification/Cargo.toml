[package]
name = "zstats"
version = "0.1.0"
edition = "2021"
publish = false

[dependencies]
async-trait = "=0.1.92"
jiff = { version = "=0.2.39", features = ["serde"] }
libc = "=0.2.191"
libproc = "=0.14.11"
plist = "=1.10.3"
serde = { version = "=1.0.229", features = ["derive", "rc"] }
serde_json = "=1.0.154"
snafu = "=0.9.2"
starship-battery = "=0.12.0"
sysctl = "=0.7.1"
sysinfo = "=0.39.6"
tokio = { version = "=1.54.1", features = ["io-std", "io-util", "macros", "net", "process", "rt-multi-thread", "signal", "sync", "time"] }
toml = "=1.1.8"
tracing = "=0.1.44"
tracing-subscriber = { version = "=0.3.23", features = ["env-filter"] }
unicode-width = "=0.2.3"
