//! A live index of the regular files under a root directory.
//!
//! `path` holds the lexical rules for paths, `file_index` the index and its scan,
//! `notify` the adapter that applies filesystem events to it, and `api` what the
//! query layer answers from it. Reading the tree, resolving paths on disk, receiving
//! events and serving requests are left to the program that uses the library.
pub mod api;
pub mod file_index;
pub mod notify;
pub mod path;
