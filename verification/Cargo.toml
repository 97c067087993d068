[package]
name = "nbwipers"
version = "0.1.0"
edition = "2021"
publish = false

[dependencies]
anyhow = "=1.0.104"
bstr = "=1.13.1"
clap = { version = "=4.6.7", features = ["derive"] }
clap-markdown = "=0.1.5"
colored = "=3.1.1"
gix-attributes = "=0.37.1"
gix-config = { version = "=0.62.1", features = ["sha1"] }
gix-discover = { version = "=0.57.1", features = ["sha1"] }
gix-path = "=0.14.1"
globset = "=0.4.20"
ignore = "=0.4.33"
indexmap = { version = "=2.14.2", features = ["serde"] }
inquire = "=0.9.4"
itertools = "=0.15.0"
path-absolutize = "=3.1.1"
rayon = "=1.12.0"
rustc-hash = "=2.1.3"
serde = { version = "=1.0.229", features = ["derive"] }
serde_json = { version = "=1.0.154", features = ["preserve_order"] }
thiserror = "=2.0.21"
toml = "=1.1.8"
