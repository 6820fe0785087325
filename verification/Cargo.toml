[package]
name = "unikernel"
version = "0.1.0"
edition = "2021"
publish = false

[dependencies]
wasmi = "*"
smoltcp = "0.11"
linked_list_allocator = "0.10"
