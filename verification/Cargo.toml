[package]
name = "notes_engine"
version = "0.1.0"
edition = "2021"
publish = false

[dependencies]
bcrypt = "*"
csv = "0.15"
glob = "0.3"
iron = "*"
router = "*"
params = "*"
persistent = "*"
handlebars-iron = "*"
iron-sessionstorage = "*"
hoedown = "*"
rand = "0.8"
toml = "0.5"
serde = { version = "1", features = ["derive"] }
serde_json = "1"
