//! The ingest server: everything between a received upload and an archived object, and what it
//! answers. Nothing here holds state across a restart but the rate limiter's windows.

pub mod applications;
pub mod archive;
pub mod authority;
pub mod calidus;
pub mod cip151;
pub mod cli;
pub mod config;
pub mod counters;
pub mod db;
pub mod dbsync;
pub mod developer;
pub mod http;
pub mod index;
pub mod instructions;
pub mod intake;
pub mod psql;
pub mod ratelimit;
pub mod rebuild;
pub mod roster;
pub mod s3;
pub mod serve;
pub mod startup;
pub mod verify;
