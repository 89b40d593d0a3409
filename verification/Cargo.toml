[package]
name = "js_parser"
version = "0.1.0"
edition = "2021"
publish = false

[dependencies]
biome_analyze = "=0.5.7"
biome_console = "=0.5.8"
biome_rowan = "=0.5.7"
drop_bomb = "=0.1.5"
