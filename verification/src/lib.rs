//! A content-addressed object database and working-tree engine: object
//! hashing and framing, the header-record codec used by commits and tags, the
//! binary staging index, tree construction, reference resolution and ignore
//! rules. Every function is stated over byte sequences and proved against that
//! statement; reading and writing files is left to the caller.

pub mod bytes;
pub mod commands;
pub mod compress;
pub mod endian;
pub mod error;
pub mod frame;
pub mod hashing;
pub mod ignore;
pub mod index;
pub mod kvlm;
pub mod objects;
pub mod refs;
pub mod repo;
pub mod store;
pub mod text;
pub mod tree;
pub mod tree_build;
pub mod tree_order;
