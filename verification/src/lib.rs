//! A single-file vault: named files kept in one container.
//!
//! The store keeps records in the order in which they were added and never
//! holds two records with the same name and extension. The container on disk
//! is one MessagePack value; reading and writing the file itself is left to
//! the caller, who hands over and receives plain bytes.

pub mod codec;
pub mod command;
pub mod file;
pub mod persist;
pub mod store;
pub mod text;
