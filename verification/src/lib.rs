//! Dependency-acquisition core of a build pipeline: decides which package
//! versions a project needs, reconciles that decision against a persisted
//! manifest and the set of packages unpacked locally, and plans the
//! integrity-verified downloads of exactly the packages required.

pub mod acquire;
pub mod codec;
pub mod error;
pub mod manifest;
pub mod store;
pub mod table;
pub mod text;
pub mod version;
