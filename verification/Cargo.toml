[package]
name = "mystic_update"
version = "0.1.0"
edition = "2021"
publish = false

[dependencies]
i18n-embed = { version = "0.16", features = ["desktop-requester", "fluent-system"] }
libflatpak = "0.7"
open = "5"
packagekit-zbus = "0.1"
tokio = { version = "1", features = ["io-util", "macros", "process", "rt", "sync", "time"] }
