//! Transport layer parsers.

pub mod tls;
