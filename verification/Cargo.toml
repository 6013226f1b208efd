[package]
name = "hunter_files"
version = "0.1.0"
edition = "2021"
publish = false

[dependencies]
alphanumeric-sort = "1.0"
async_value = "*"
chrono = "0.4"
lscolors = "*"
mime = "0.3"
mime_guess = "2.0"
nix = "0.17"
pathbuftools = "*"
rayon = "1"
termion = "1.5"
tree_magic = "0.2"
users = "0.10"
