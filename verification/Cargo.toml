[package]
name = "fretwire"
version = "0.1.0"
edition = "2021"
publish = false

[dependencies]
clap = { version = "4", features = ["derive", "env"] }
icu_casemap = "2"
icu_collator = "2"
icu_locale = "2"
icu_properties = "2"
indexmap = "2"
path-clean = "1"
positioned-io = "0.3"
writeable = "0.6"
