//! A record store of journal entries, each kept in an account whose address
//! is derived from its owner's key and its title.

pub mod layout;
pub mod address;
pub mod store;
pub mod laws;
