[package]
name = "tokmat"
version = "0.2.0"
edition = "2021"
publish = false

[dependencies]
lru = "*"
pcre2 = "0.2"
serde = { version = "1", features = ["derive"] }
thiserror = "*"
unicode-general-category = "*"
unicode-normalization = "0.1"
