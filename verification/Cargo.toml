[package]
name = "sch_gui"
version = "0.1.0"
edition = "2021"
publish = false

[dependencies]
uefi = "=0.26.0"
