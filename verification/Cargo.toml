[package]
name = "bustle"
version = "0.1.0"
edition = "2021"
publish = false

[dependencies]
anyhow = "1"
gettext-rs = { version = "0.7", features = ["gettext-system"] }
glib = "0.19"
gtk4 = "0.8"
indexmap = "2"
libadwaita = "0.6"
once_cell = "1"
pcap-file = "2"
tokio = { version = "1", features = ["rt-multi-thread", "process", "io-util", "sync"] }
tracing = "0.1"
tracing-subscriber = "0.3"
zbus = { version = "4", default-features = false, features = ["tokio"] }
