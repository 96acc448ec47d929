[package]
name = "nx_hash_plan"
version = "0.1.0"
edition = "2021"
publish = false

[dependencies]
globset = "*"
hashbrown = "*"
ignore = "*"
ignore-files = "*"
once_cell = "*"
os_type = "*"
rayon = "*"
watchexec-events = "*"
