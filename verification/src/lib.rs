//! A POSIX-style filesystem engine whose persistent state lives in a
//! transactional key-value store with ordered byte keys.
//!
//! The engine is organised as:
//! - a key schema (`key`) mapping every persistent entity to a byte key,
//! - reversible entity codecs (`serialize`),
//! - a typed view of one transaction's snapshot of the store (`store`),
//! - the transactional primitives over that view (`transaction`),
//! - the POSIX-shaped facade and the advisory-lock state machine (`tikv_fs`),
//! - mount-option parsing (`mount`).
//!
//! The surrounding process (KV client, kernel bridge, retry loop) supplies a
//! snapshot, runs the verified operations, and commits the result.

pub mod block;
pub mod dir;
pub mod error;
pub mod file_handler;
pub mod index;
pub mod inode;
pub mod key;
pub mod laws;
pub mod meta;
pub mod mode;
pub mod mount;
pub mod reply;
pub mod serialize;
pub mod store;
pub mod tikv_fs;
pub mod transaction;
