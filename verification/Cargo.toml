[package]
name = "i18n_convert"
version = "0.1.0"
edition = "2021"
publish = false

[dependencies]
indexmap = "=2.14.2"
regex = "=1.13.1"
serde_json = "=1.0.154"
quick-xml = "=0.37.5"
json5 = "=1.3.7"
toml = "=1.1.8"
plist = "=1.10.3"
csv = "=1.4.0"
calamine = "=0.38.0"
rust_xlsxwriter = "=0.102.0"
thiserror = "=2.0.21"
clap = { version = "=4.6.7", features = ["derive"] }
