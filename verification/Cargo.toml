[package]
name = "katsu"
version = "0.1.0"
edition = "2021"
publish = false

[dependencies]
bytesize = { version = "=1.3.3", features = ["serde"] }
uuid = { version = "=1.29.0", features = ["serde"] }
shellish_parse = "=2.2.0"
indexmap = "=2.14.2"
serde = { version = "*", features = ["derive"] }
serde_json = "*"
serde_yaml = "*"
hcl-rs = "*"
ensan = "*"
clap = { version = "*", features = ["derive", "env"] }
color-eyre = "*"
tracing = "*"
tracing-subscriber = { version = "*", features = ["env-filter"] }
tracing-error = "*"
cmd_lib = "*"
tiffin = "*"
tempfile = "*"
nix = { version = "*", features = ["mount"] }
sys-mount = "*"
loopdev = "*"
tera = "*"
dotenvy = "*"
sudo = "*"
merge-struct = "*"
const_format = "*"
lazy_format = "*"
thiserror = "*"
