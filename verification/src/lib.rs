//! A minimal content-addressed object store: SHA-1 digests of file contents,
//! length-prefixed blob objects, repository discovery and the tree walk that
//! stores every distinct content exactly once.

pub mod blob;
pub mod errors;
pub mod hash;
pub mod locate;
pub mod mygit;
pub mod store;
pub mod text;
pub mod trace;
pub mod walk;
