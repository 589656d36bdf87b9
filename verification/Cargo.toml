[package]
name = "selinux_why"
version = "0.1.0"
edition = "2021"
publish = false

[dependencies]
indexmap = "*"
linux-audit-parser = "*"
log = "*"
thiserror = "*"
