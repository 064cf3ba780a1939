[package]
name = "lyrics_core"
version = "0.1.0"
edition = "2021"
publish = false

[dependencies]
urlencoding = "*"
hangeul = "*"
kakasi = "*"
wana_kana = "*"
lindera = "*"
serde = { version = "*", features = ["derive"] }
serde_json = "*"
reqwest = { version = "*", default-features = false, features = ["blocking", "json"] }
