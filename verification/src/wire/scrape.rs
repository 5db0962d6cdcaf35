//! What a submission carries: scrapes of a node's metrics, those that failed among them.

use vstd::prelude::*;

use crate::wire::envelope::Provenance;

verus! {

/// One metric of a scrape.
#[derive(Debug)]
pub struct Metric {
    pub name: String,
    /// By name, in the order of the names.
    pub labels: Vec<(String, String)>,
    pub value: i128,
    pub declared_type: Option<String>,
}

/// Why a scrape came to nothing.
#[derive(Debug, Clone, Copy, PartialEq, Eq, Structural)]
pub enum Reason {
    /// The endpoint did not answer.
    Unreachable,
}

/// A scrape that came to nothing.
#[derive(Debug)]
pub struct Failure {
    pub reason: Reason,
    pub detail: String,
}

/// One scrape. One that failed is still a scrape: no metrics, and a reason naming what stopped it.
#[derive(Debug)]
pub struct Scrape {
    /// In seconds since 1970.
    pub scraped_at: i64,
    pub clock_offset_ms: Option<i64>,
    pub failure: Option<Failure>,
    pub metrics: Vec<Metric>,
}

/// A submission before it is sealed.
#[derive(Debug)]
pub struct Envelope {
    pub provenance: Provenance,
    pub client_version: String,
    pub counter: u64,
    /// In seconds since 1970.
    pub timestamp: i64,
    pub scrapes: Vec<Scrape>,
}

}
