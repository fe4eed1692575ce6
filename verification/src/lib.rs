//! Password-protected credential vaults.
//!
//! A vault keeps its entries encrypted under an internal key that is itself
//! stored twice in the vault's header: once wrapped under a key derived from
//! the master password, once wrapped under a recovery key. This crate holds
//! the key derivation, the authenticated encryption, the byte layout of a
//! vault and the registry of the vaults that are open.

pub mod commands;
pub mod crypto;
pub mod entries;
pub mod error;
pub mod header;
pub mod manager;
pub mod name_map;
pub mod password;
pub mod securestring;
pub mod state;
pub mod vault;
pub mod wire;
