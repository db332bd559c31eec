[package]
name = "book_examples"
version = "0.1.0"
edition = "2021"
publish = false

[dependencies]
rand = "*"
hello_macro = "*"
hello_macro_derive = "*"
