//! The archive as local files: list a prefix, download what is new, remember where the download
//! got to.

pub mod cli;
pub mod cursor;
pub mod provenance;
pub mod pull;
pub mod recipe;
pub mod resume;
pub mod select;
pub mod staged;
pub mod summary;
pub mod sync;
pub mod verification;
