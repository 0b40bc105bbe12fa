[package]
name = "remark"
version = "0.5.1"
edition = "2021"
publish = false

[dependencies]
anyhow = "=1.0.104"
base64 = "=0.22.1"
clap = { version = "=4.6.7", default-features = false, features = ["derive", "std", "help", "usage", "error-context"] }
confique = { version = "=0.4.0", default-features = false, features = ["toml"] }
crossterm = "=0.28.1"
dirs = "=7.0.0"
gix = { version = "=0.90.0", default-features = false, features = ["status", "revision", "sha1"] }
gix-hash = { version = "=0.28.1", features = ["sha1"] }
gix-object = { version = "=0.66.1", features = ["sha1"] }
ignore = "=0.4.34"
mimalloc = { version = "=0.1.52", default-features = false }
notify = "=8.2.1"
ratatui = { version = "=0.29.0", default-features = false, features = ["crossterm"] }
serde = { version = "=1.0.229", features = ["derive"] }
serde_json = "=1.0.154"
similar = { version = "=2.7.0", features = ["inline", "unicode"] }
smallvec = "=1.16.4"
syntastica = { version = "=0.6.1", default-features = false, features = ["runtime-c"] }
syntastica-parsers = { version = "=0.6.1", features = ["some", "diff"] }
syntastica-themes = "=0.6.1"
tempfile = "=3.27.0"
tokio = { version = "=1.54.1", features = ["rt", "io-std", "sync"] }
tower-lsp = { version = "=0.20.0", default-features = false, features = ["runtime-tokio"] }
tui-textarea = { version = "=0.7.0", default-features = false, features = ["ratatui", "crossterm"] }
unicode-width = "=0.2.0"
