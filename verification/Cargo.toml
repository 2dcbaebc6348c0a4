[package]
name = "mousemic"
version = "1.4.3"
edition = "2021"
publish = false

[dependencies]
anyhow = "=1.0.104"
clap = { version = "=4.6.7", default-features = false, features = ["std", "help", "usage", "error-context", "derive"] }
cpal = "=0.15.3"
ctrlc = "=3.5.2"
hidapi = { version = "=2.6.7", default-features = false, features = ["linux-native-basic-udev"] }
libloading = "=0.8.9"
log = "=0.4.35"
native-windows-derive = "=1.0.5"
native-windows-gui = "=1.0.13"
serde = { version = "=1.0.229", features = ["derive"] }
serde_json = "=1.0.154"
simplelog = { version = "=0.12.2", default-features = false, features = ["termcolor"] }
winreg = "=0.52.0"
