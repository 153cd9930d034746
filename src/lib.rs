//! A small command-line HTTP client: token parsing, request building and response rendering.
pub mod address;
pub mod kv;
pub mod render;
pub mod request;
