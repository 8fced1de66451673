[package]
name = "pdf_handouts"
version = "0.1.0"
edition = "2021"
publish = false

[dependencies]
chrono = "=0.4.45"
clap = { version = "=4.6.7", features = ["derive"] }
glob = "=0.3.4"
krilla = "=0.8.2"
lopdf = { version = "=0.46.0", default-features = false }
rustybuzz = "=0.20.1"
thiserror = "=2.0.21"
