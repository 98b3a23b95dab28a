[package]
name = "django_auth"
version = "0.1.0"
edition = "2021"
publish = false

[dependencies]
base64 = "*"
pbkdf2 = "*"
sha2 = "*"
thiserror = "*"
