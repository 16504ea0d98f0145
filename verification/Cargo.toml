[package]
name = "google_bigquery"
version = "0.1.0"
edition = "2021"
publish = false

[dependencies]
google-bigquery2 = { version = "=7.0.0", features = ["yup-oauth2-service-account"] }
chrono = "=0.4.45"
