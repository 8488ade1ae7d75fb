[package]
name = "lark_infer"
version = "0.1.0"
edition = "2021"
publish = false

[dependencies]
generational-arena = "0.2"
diff = "0.1"
log = "0.4"
url = "2"
language-reporting = "*"
