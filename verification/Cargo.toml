[package]
name = "skill_lab"
version = "0.1.0"
edition = "2021"
publish = false

[dependencies]
getrandom = "=0.3.4"
convert_case = "=0.12.0"
time = "=0.3.55"
serde = { version = "=1.0.229", features = ["derive"] }
ron = "=0.12.3"
web-time = "=1.1.0"
web-sys = { version = "=0.3.107", features = ["Window", "Storage", "Document", "Element", "Location"] }
async-std = "=1.13.2"
dioxus = { version = "=0.7.10", default-features = false, features = ["web", "router", "macro", "html", "signals", "hooks", "launch", "document", "logger"] }
