[package]
name = "arachne_incremental"
version = "0.1.0"
edition = "2021"
publish = false

[dependencies]
anyhow = "1"
chrono = "0.4"
clap = { version = "4", features = ["derive"] }
glob = "0.3"
serde = { version = "1", features = ["derive"] }
serde_json = "1"
winapi = { version = "0.3", features = ["fileapi", "handleapi", "ioapiset", "winbase", "winnt", "errhandlingapi", "minwindef"] }
