[package]
name = "survey_form"
version = "0.1.0"
edition = "2021"
publish = false

[dependencies]
rocket = "0.5"
mongodb = "2"
dotenv = "0.15"
