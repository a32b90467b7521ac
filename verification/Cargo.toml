[package]
name = "arcella"
version = "0.1.0"
edition = "2021"
publish = false

[dependencies]
indexmap = "=2.14.2"
regex = "=1.13.1"
toml_edit = "=0.22.27"
tokio = { version = "=1.54.1", features = ["fs", "rt-multi-thread", "macros", "net", "io-util", "sync", "signal", "time"] }
futures = "=0.3.34"
dirs = "=7.0.0"
serde = { version = "=1.0.229", features = ["derive"] }
serde_json = "=1.0.154"
toml = "=0.8.23"
thiserror = "=2.0.21"
time = { version = "=0.3.55", features = ["formatting"] }
clap = { version = "=4.6.7", features = ["derive"] }
wasmtime = { version = "=45.0.3", default-features = false, features = ["component-model", "cranelift", "runtime", "std"] }
tracing = "0.1"
tracing-subscriber = { version = "0.3", features = ["env-filter", "json"] }
tracing-appender = "0.2"
