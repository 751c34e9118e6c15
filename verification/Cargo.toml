[package]
name = "rusk"
version = "0.1.0"
edition = "2021"
publish = false

[dependencies]
anyhow = "*"
colored = "*"
deno_task_shell = "*"
futures = "*"
hashbrown = "*"
ignore = "*"
itertools = "*"
once_cell = "*"
path-dedot = "*"
pathdiff = "*"
serde = { version = "*", features = ["derive"] }
thiserror = "*"
tokio = { version = "*", features = ["fs", "rt", "sync", "macros"] }
toml = "*"
unicode-width = "*"
