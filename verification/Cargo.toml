[package]
name = "music_organizer"
version = "0.1.0"
edition = "2021"
publish = false

[dependencies]
id3 = "*"
mp4ameta = "*"
clap = "*"
walkdir = "*"
