[package]
name = "hitpoint"
version = "0.1.0"
edition = "2021"
publish = false

[dependencies]
serde = { version = "1", features = ["derive"] }
serde_json = { version = "1", features = ["preserve_order"] }
percent-encoding = "2"
url = { version = "2", features = ["serde"] }
indexmap = { version = "2", features = ["serde"] }
toml = "*"
async-trait = "0.1"
clap = { version = "4", features = ["derive"] }
clap_complete = "4"
crossterm = { version = "*", features = ["event-stream"] }
directories = "*"
futures = "0.3"
keyring = { version = "3", default-features = false }
oauth2 = { version = "5", default-features = false, features = ["reqwest"] }
open = "5"
ratatui = "*"
reqwest = { version = "0.12", default-features = false, features = ["json"] }
rmcp = { version = "*", features = ["server", "transport-io", "macros"] }
rpassword = "7"
schemars = "1"
thiserror = "2"
tokio = { version = "1", features = ["full"] }
tracing = "0.1"
tracing-appender = "0.2"
tracing-subscriber = { version = "0.3", features = ["env-filter"] }
