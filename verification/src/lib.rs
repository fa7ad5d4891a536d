//! Server-side bookkeeping for passwordless registration and login.
//!
//! Each ceremony runs in two steps, begin and finish, that may happen in different
//! processes. What must survive between the two is kept by a [`storage::StorageProvider`]:
//! one short-lived challenge per ceremony and one long-lived aggregate of registered
//! credentials. The functions under [`commands`] drive the ceremonies; the cryptographic
//! checks themselves are made by the `webauthn_rp` crate, reached through [`webauthn`].

pub mod calendar;
pub mod cli;
pub mod codec;
pub mod commands;
pub mod credential_store;
pub mod errors;
pub mod memory;
pub mod schemas;
pub mod search;
pub mod storage;
pub mod text;
pub mod webauthn;
