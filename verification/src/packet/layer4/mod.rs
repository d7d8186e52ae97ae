//! Application layer parsers.

pub mod http;
