//! A verified core for a mirroring package registry: the index-file rules,
//! argument parsing for the git driver, ownership checks, the publish/yank
//! pipeline, and the decision logic around upstream fetches.

pub mod auth;
pub mod cgi;
pub mod config;
pub mod db;
pub mod errors;
pub mod frame;
pub mod gitargs;
pub mod gitcmd;
pub mod hashes;
pub mod index;
pub mod owners;
pub mod pagination;
pub mod paths;
pub mod registry;
pub mod version;

pub use pagination::Paginate;
pub use pagination::Paginated;
