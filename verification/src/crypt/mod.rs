//! Encryption support.

pub mod aes;
