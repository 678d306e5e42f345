//! Cryptographic and authentication core of a self-hosted password vault.

pub mod util;
pub mod encryption;
pub mod db;
pub mod user;
pub mod password;
