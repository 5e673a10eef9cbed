[package]
name = "qi_compiler"
version = "0.1.0"
edition = "2021"
publish = false

[dependencies]
anyhow = "=1.0.104"
clap = { version = "=4.6.7", features = ["derive"] }
itertools = "=0.14.0"
llvm-sys = "=231.0.1"
path-slash = "=0.2.1"
proc-macro2 = "=1.0.107"
quote = "=1.0.47"
revive-solc-json-interface = { version = "=0.1.0", features = ["resolc"] }
rowan = "=0.16.1"
semver = { version = "=1.0.28", features = ["serde"] }
serde = { version = "=1.0.229", features = ["derive"] }
serde_json = "=1.0.154"
ungrammar = "=1.16.1"
xshell = "=0.2.7"

[dev-dependencies]
logos-codegen = { version = "=0.14.4", features = ["fuzzing"] }
regex-syntax = "=0.8.11"
