//! Credential store and session manager for a small content site: a
//! username policy, a length-prefixed flat-file record format, salted
//! password hashing, and a table of live session tokens.

pub mod codec;
pub mod error;
pub mod hasher;
pub mod helpers;
pub mod profile;
pub mod sessions;
pub mod store;
pub mod text;
pub mod textmap;
pub mod username;
pub mod users;
