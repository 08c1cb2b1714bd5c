[package]
name = "chessdb_core"
version = "0.1.0"
edition = "2021"
publish = false

[dependencies]
shakmaty = "=0.27.3"
pgn-reader = "=0.26.0"
bzip2 = "=0.4.4"
zstd = "=0.13.3"
rayon = "=1.10.0"
