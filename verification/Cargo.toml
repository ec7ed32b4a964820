[package]
name = "aw_manager"
version = "0.1.0"
edition = "2021"
publish = false

[dependencies]
serde_json = "1"
shell-words = "1"
log = "0.4"
lazy_static = "1"
nix = { version = "0.29", features = ["signal", "process", "fs"] }
winapi = { version = "0.3", features = ["minwindef", "handleapi", "jobapi2", "processthreadsapi", "winbase", "winnt"] }
tauri = { version = "2", default-features = false, features = ["tray-icon"] }
