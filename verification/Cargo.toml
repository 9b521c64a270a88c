[package]
name = "apis_catalog"
version = "0.1.0"
edition = "2021"
publish = false

[dependencies]
regex = "=1.13.1"
chrono = "=0.4.45"
quick_cache = "=0.7.0"
rand = "=0.8.8"
serde = { version = "=1.0.229", features = ["derive"] }
serde_json = "=1.0.154"
serde_yaml = "=0.9.34"
yaml-rust = "=0.4.5"
openapiv3 = "=1.0.4"
histogram = "=0.6.9"
uuid = { version = "=1.29.0", features = ["v4", "serde"] }
log = "=0.4.35"
fern = "=0.6.2"
env_logger = "=0.10.2"
lazy_static = "=1.5.1"
config = { version = "=0.13.4", default-features = false, features = ["toml", "yaml", "json"] }
clap = { version = "=4.6.7", features = ["cargo"] }
prettytable-rs = "=0.10.0"
reqwest = { version = "=0.11.27", default-features = false, features = ["blocking", "json"] }
actix-web = "=4.18.1"
actix-files = "=0.6.10"
rusqlite = { version = "=0.29.0", features = ["bundled", "chrono", "uuid"] }
tantivy = "=0.22.1"
git2 = { version = "=0.18.3", default-features = false }
glob = "=0.3.4"
globwalk = "=0.8.1"
cmd_lib = "=1.9.6"
