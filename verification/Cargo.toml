[package]
name = "docx_filler"
version = "0.1.0"
edition = "2021"
publish = false

[dependencies]
zip = "*"
fluent-templates = "*"
unic-langid = "*"
