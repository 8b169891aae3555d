[package]
name = "bevy_editor"
version = "0.1.0"
edition = "2021"
publish = false

[dependencies]
anyhow = "1"
clap = { version = "4", features = ["derive"] }
directories = "*"
git2 = { version = "*", default-features = false }
prettytable-rs = "*"
reqwest = { version = "*", default-features = false, features = ["blocking"] }
rust-embed = "*"
rust-i18n = "*"
serde = { version = "1", features = ["derive"] }
tera = "1"
toml_edit = { version = "0.19", features = ["serde"] }
zip = { version = "0.6", default-features = false, features = ["deflate"] }
