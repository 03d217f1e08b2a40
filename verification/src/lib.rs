//! Encrypted secrets in git, built on age.
//!
//! The library decides what is encrypted, decrypted or passed through, which paths are
//! read and written, and what the files it keeps contain. Reading, writing and running
//! `git` is left to the program around it.

pub mod age_calls;
pub mod commands;
pub mod crypto;
pub mod error;
pub mod gitfilter;
pub mod identity;
pub mod install;
pub mod laws;
pub mod paths;
pub mod text;
