[package]
name = "sapphire"
version = "0.1.0"
edition = "2021"
publish = false

[dependencies]
ansi_term = "*"
clap = { version = "*", features = ["derive"] }
colored = "*"
copy_dir = "*"
dirs = "*"
fontdue = "*"
fs_extra = "*"
git2 = { version = "*", default-features = false }
image = "*"
path-absolutize = "*"
plist = "*"
rustyline = "*"
serde = { version = "*", features = ["derive"] }
serde_json = "*"
texture_packer = "*"
walkdir = "*"
