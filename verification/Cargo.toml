[package]
name = "bar_tray"
version = "0.1.0"
edition = "2021"
publish = false

[dependencies]
anyhow = "1"
freedesktop-icons = "*"
libtrayd = "*"
pangocairo = "*"
rustsni = "*"
tokio = { version = "1", features = ["rt-multi-thread", "sync"] }
wayrs-client = "*"
wayrs-utils = { version = "*", features = ["shm_alloc"] }
