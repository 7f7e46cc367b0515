[package]
name = "system_monitor"
version = "0.1.0"
edition = "2021"
publish = false

[dependencies]
fltk = "1"
fltk-theme = "0.7"
sysinfo = "*"
winreg = "*"
