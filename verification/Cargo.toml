[package]
name = "frclib_datalog"
version = "0.1.0"
edition = "2021"
publish = false

[dependencies]
frclib-core = { version = "=0.2.4", features = ["basic", "structure"] }
# Not used directly: pins the transitive dependency of frclib-core to the
# last version that still re-exports `inventory::core`, which frclib-core
# 0.2.4 needs to compile.
inventory = "=0.3.15"
thiserror = "=1.0.69"
