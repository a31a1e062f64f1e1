[package]
name = "dacttylo"
version = "0.1.0"
edition = "2021"
publish = false

[dependencies]
blake3 = "=1.8.7"
unicode-segmentation = "=1.10.1"
unicode-width = "=0.1.14"
ropey = "=1.6.1"
serde = { version = "=1.0.229", features = ["derive"] }
serde_with = "=1.14.0"
bincode = "=1.3.3"
thiserror = "=1.0.69"
clap = { version = "=3.2.25", features = ["derive"] }
crossterm = { version = "=0.25.0", features = ["event-stream"] }
tui = { version = "=0.19.0", default-features = false, features = ["crossterm"] }
tokio = { version = "=1.54.1", features = ["rt-multi-thread", "macros", "sync", "time"] }
tokio-stream = "=0.1.19"
futures = "=0.3.34"
figlet-rs = "=0.1.5"
once_cell = "=1.21.4"
syntect = { version = "=4.6.0", default-features = false, features = ["default-fancy"] }
itertools = "=0.10.5"
