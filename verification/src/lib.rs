//! Committing programmatic edits to configuration files held by a remote
//! hosting service: a path-addressed patch engine for JSON and YAML
//! documents, a repository read/commit abstraction, and the translation of
//! multi-file commit requests into two hosting providers' write protocols.

pub mod codec;
pub mod commit;
pub mod doc;
pub mod error;
pub mod http;
pub mod pct;
pub mod providers;
pub mod repository;
pub mod templaters;
pub mod text;

pub use error::Error;
