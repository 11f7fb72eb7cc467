[package]
name = "peep"
version = "0.1.0"
edition = "2021"
publish = false

[dependencies]
blake3 = "*"
clap = { version = "4", features = ["derive"] }
crossterm = "*"
directories = "*"
ego-tree = "*"
encoding_rs = "*"
libc = "*"
percent-encoding = "*"
pulldown-cmark = { version = "*", default-features = false }
ratatui = "*"
regex = "*"
roxmltree = "*"
scraper = "*"
serde = { version = "1", features = ["derive"] }
serde_json = "1"
tempfile = "3"
thiserror = "2"
unicode-segmentation = "*"
unicode-width = "*"
windows-sys = { version = "*", features = ["Win32_Foundation", "Win32_System_Console"] }
zip = { version = "*", default-features = false, features = ["deflate"] }
