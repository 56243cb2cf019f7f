//! A password-gated encrypted note store. A password is verified against two
//! persisted digests (a user-chosen primary and a generated master), unlocks
//! a key derived from it, and with that key the working directory's note
//! files are unsealed for the session and sealed again at its end. Notes are
//! stored under the hex digest of their title; an ordered index record maps
//! storage keys back to titles.

pub mod byteops;
pub mod hashing;
pub mod hexcodec;
pub mod keys;
pub mod credentials;
pub mod cipher;
pub mod index;
pub mod engine;
pub mod session;
pub mod commands;
