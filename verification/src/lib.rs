//! A per-user, authenticated file store.
//!
//! Files live three levels deep under a storage root: a user's home folder,
//! a bucket inside it, and a sanitized file name inside the bucket. The
//! directory levels have no life of their own: they are created lazily when
//! the first file is written and collapse again when the last file is
//! deleted. [`store::Store`] models the directory tree and decides, for each
//! operation, which filesystem actions have to be carried out and in which
//! order; an I/O layer replays those actions on a real disk.

pub mod assoc;
pub mod auth;
pub mod config;
pub mod handlers;
pub mod names;
pub mod store;
pub mod trusted;
