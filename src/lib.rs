//! Backup of an S3-compatible object store to a local directory tree, and
//! restore of such a tree into the store.
pub mod backup;
pub mod keymap;
pub mod resp;
pub mod restore;
