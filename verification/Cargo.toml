[package]
name = "page_table_multiarch"
version = "0.1.0"
edition = "2021"
publish = false

[dependencies]
memory_addr = "*"
page_table_entry = "*"
