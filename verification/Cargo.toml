[package]
name = "stylers_core"
version = "0.1.0"
edition = "2021"
publish = false

[dependencies]
camino = "*"
clap = { version = "*", features = ["derive"] }
color-eyre = "*"
glob = "*"
proc-macro2 = { version = "*", features = ["span-locations"] }
syn = { version = "*", features = ["full", "visit"] }
tracing = "*"
tracing-error = "*"
tracing-subscriber = { version = "*", features = ["env-filter"] }
