//! What the agent, the server and the reader of the archive agree on.

pub mod agent;
pub mod attestation;
pub mod envelope;
pub mod http;
pub mod journal;
pub mod moment;
pub mod pool;
pub mod scrape;
pub mod signing;
