[package]
name = "ui_automata"
version = "0.1.0"
edition = "2021"
publish = false

[dependencies]
fancy-regex = "*"
saphyr = "*"
saphyr-parser = "*"
serde = { version = "1", features = ["derive"] }
serde_yaml = "0.9"
serde_json = "1"
serde_path_to_error = "*"
schemars = "1"
log = "0.4"
dirs = "*"
image = { version = "*", default-features = false, features = ["png"] }
thiserror = "2"
