//! The submission the details page shows.

use vstd::prelude::*;

use crate::outside;
use crate::wire::agent;
use crate::wire::agent::AgentId;
use crate::wire::envelope::Provenance;
use crate::wire::pool::PoolId;
use crate::wire::scrape::{Envelope, Failure, Metric, Reason, Scrape};
use crate::wire::signing::VerifyingKey;

verus! {

/// The instant the example is stamped with. Fixed, so the page is the same in every build; the
/// digits mean nothing beyond showing the format.
pub const EXAMPLE_INSTANT: i64 = 1_780_000_000;

/// The hash the example's tip has.
pub const EXAMPLE_HASH: &'static str =
    "0e2b4b1a0e2b4b1a0e2b4b1a0e2b4b1a0e2b4b1a0e2b4b1a0e2b4b1a0e2b4b1a";

/// The cold key of the example's pool: the one that a seed of zeroes makes.
pub open spec fn example_key() -> Seq<u8> {
    outside::ed25519_public_of(Seq::new(32, |i: int| 0u8))
}

/// A scrape that found two metrics, where a real one carries every metric the endpoint returned.
pub open spec fn is_first_row(row: Scrape) -> bool {
    &&& row.scraped_at == EXAMPLE_INSTANT
    &&& row.clock_offset_ms == Some(-3i64)
    &&& row.failure is None
    &&& row.metrics@.len() == 2
    &&& row.metrics@[0].name@ == "cardano_node_metrics_blockNum_int"@
    &&& row.metrics@[0].labels@.len() == 0
    &&& row.metrics@[0].value == 12_318_442
    &&& row.metrics@[0].declared_type is Some
    &&& row.metrics@[0].declared_type->0@ == "gauge"@
    &&& row.metrics@[1].name@ == "cardano_node_metrics_tipBlock"@
    &&& row.metrics@[1].labels@.len() == 1
    &&& row.metrics@[1].labels@[0].0@ == "hash"@
    &&& row.metrics@[1].labels@[0].1@ == EXAMPLE_HASH@
    &&& row.metrics@[1].value == 1
    &&& row.metrics@[1].declared_type is Some
    &&& row.metrics@[1].declared_type->0@ == "info"@
}

/// A scrape that failed, five minutes later.
pub open spec fn is_second_row(row: Scrape) -> bool {
    &&& row.scraped_at == EXAMPLE_INSTANT + 300
    &&& row.clock_offset_ms is None
    &&& row.failure is Some
    &&& row.failure->0.reason == Reason::Unreachable
    &&& row.failure->0.detail@ == "the endpoint did not answer: connection refused"@
    &&& row.metrics@.len() == 0
}

fn first_row() -> (r: Scrape)
    ensures
        is_first_row(r),
{
    let mut labels: Vec<(String, String)> = Vec::new();
    labels.push((String::from_str("hash"), String::from_str(EXAMPLE_HASH)));
    let mut metrics: Vec<Metric> = Vec::new();
    metrics.push(
        Metric {
            name: String::from_str("cardano_node_metrics_blockNum_int"),
            labels: Vec::new(),
            value: 12_318_442,
            declared_type: Some(String::from_str("gauge")),
        },
    );
    metrics.push(
        Metric {
            name: String::from_str("cardano_node_metrics_tipBlock"),
            labels,
            value: 1,
            declared_type: Some(String::from_str("info")),
        },
    );
    Scrape { scraped_at: EXAMPLE_INSTANT, clock_offset_ms: Some(-3), failure: None, metrics }
}

fn second_row() -> (r: Scrape)
    ensures
        is_second_row(r),
{
    Scrape {
        scraped_at: EXAMPLE_INSTANT + 300,
        clock_offset_ms: None,
        failure: Some(
            Failure {
                reason: Reason::Unreachable,
                detail: String::from_str("the endpoint did not answer: connection refused"),
            },
        ),
        metrics: Vec::new(),
    }
}

/// The submission the page shows. Two rows, because a scrape has two shapes and a field only the
/// failed one carries would otherwise never reach the page.
pub fn example_submission(client_version: &str) -> (r: Envelope)
    ensures
        r.provenance.pool_id@ == outside::blake2b224(example_key()),
        r.provenance.agent_id@ == "relay-1"@,
        r.client_version@ == client_version@,
        r.counter == 42,
        r.timestamp == EXAMPLE_INSTANT,
        r.scrapes@.len() == 2,
        is_first_row(r.scrapes@[0]),
        is_second_row(r.scrapes@[1]),
{
    let seed: [u8; 32] = [0u8; 32];
    assert(seed@ =~= Seq::new(32, |i: int| 0u8));
    let key = outside::ed25519_public(&seed);
    let pool_id = match VerifyingKey::from_bytes(&key) {
        Ok(vkey) => PoolId::from_cold_key(&vkey),
        Err(_) => vstd::pervasive::unreached(),
    };
    proof {
        reveal_strlit("relay-1");
        assert(agent::is_slug("relay-1"@));
    }
    let agent_id = match AgentId::parse("relay-1") {
        Ok(agent_id) => agent_id,
        Err(_) => vstd::pervasive::unreached(),
    };
    let mut scrapes: Vec<Scrape> = Vec::new();
    scrapes.push(first_row());
    scrapes.push(second_row());
    Envelope {
        provenance: Provenance { pool_id, agent_id },
        client_version: String::from_str(client_version),
        counter: 42,
        timestamp: EXAMPLE_INSTANT,
        scrapes,
    }
}

}
