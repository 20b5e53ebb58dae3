[package]
name = "shogi_mate_solver"
version = "0.1.0"
edition = "2021"
publish = false

[dependencies]
encoding_rs = "0.8"
once_cell = "1"
rand = "0.9"
rand_chacha = "0.9"
shogi_core = "*"
shogi_legality_lite = "*"
shogi_official_kifu = "*"
shogi_usi_parser = "*"
tinyget = "*"
