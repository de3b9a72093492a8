//! Verified core of an encrypted notes-and-URLs vault.


pub mod auth;
pub mod browser;
pub mod changes;
pub mod cli;
pub mod clipboard;
pub mod config;
pub mod crypto;
pub mod display;
pub mod encoding;
pub mod keychain;
pub mod listing;
pub mod migrate;
pub mod schema;
pub mod search;
pub mod session;
pub mod sorting;
pub mod tagging;
pub mod text;
pub mod transfer;
pub mod vault;
