[package]
name = "i18next_turbo"
version = "0.1.0"
edition = "2021"
publish = false

[dependencies]
anyhow = "1"
clap = { version = "4", features = ["derive"] }
glob = "0.3"
httpdate = "1"
icu_locid = "1"
icu_plurals = "1"
json5 = "0.4"
notify-debouncer-mini = "*"
rayon = "1"
regex = "1"
reqwest = { version = "0.12", default-features = false, features = ["blocking", "json"] }
serde = { version = "1", features = ["derive"] }
serde_json = { version = "1", features = ["preserve_order"] }
swc_common = "*"
swc_ecma_ast = { version = "*", features = ["serde-impl"] }
swc_ecma_parser = "*"
swc_ecma_visit = "*"
unicode-normalization = "0.1"

[dev-dependencies]
tempfile = "3"
