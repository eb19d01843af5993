[package]
name = "hgrep"
version = "0.1.0"
edition = "2021"
publish = false

[dependencies]
regex = "*"
ignore = "*"
anyhow = "*"
clap = "3"
clap_generate = "3"
grep-regex = "*"
grep-searcher = "*"
grep-matcher = "*"
grep-pcre2 = "*"
rayon = "*"
mimalloc = "*"
ansi_term = "*"
