[package]
name = "segm_buff"
version = "0.1.0"
edition = "2021"
publish = false
