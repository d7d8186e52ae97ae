//! Internet layer parsers.

pub mod ipv4;
