//! Replay state: the highest counter accepted per pool. A reservation holds the write open until
//! its caller has stored the batch, so of two submissions racing on one counter exactly one both
//! stores and records.

use vstd::prelude::*;

verus! {

/// Why the counters have no answer.
#[derive(Debug)]
pub enum CounterError {
    Sqlite(String),
    Migrate(String),
}

impl CounterError {
    /// What an operator reads.
    pub open spec fn spelled(self) -> Seq<char> {
        match self {
            CounterError::Sqlite(error) => "sqlite: "@ + error@,
            CounterError::Migrate(error) => error@,
        }
    }

    /// What an operator reads.
    pub fn message(&self) -> (r: String)
        ensures
            r@ == self.spelled(),
    {
        match self {
            CounterError::Sqlite(error) => {
                let mut r = String::from_str("sqlite: ");
                r.append(error.as_str());
                r
            },
            CounterError::Migrate(error) => error.clone(),
        }
    }
}

/// What a submitted counter is worth against the pool's recorded state.
#[derive(Debug, Clone, Copy, PartialEq, Eq, Structural)]
pub enum Reservation {
    /// The counter is past everything accepted so far. What is recorded of it is `row`, and only
    /// once its caller has stored the batch.
    Reserved { row: i64 },
    /// The counter did not advance: a replay, or a client whose spool was restored from an older
    /// copy.
    Replayed { last: u64 },
}

/// What a row holds of a counter: rows are 64 bits and signed, so a counter past their range is
/// held as the negative number of the same bits.
pub open spec fn row_of(counter: u64) -> int {
    if counter <= i64::MAX {
        counter as int
    } else {
        counter - 0x1_0000_0000_0000_0000
    }
}

/// The counter that a row holds.
pub open spec fn counter_of(row: i64) -> int {
    if row >= 0 {
        row as int
    } else {
        row + 0x1_0000_0000_0000_0000
    }
}

/// What a row holds of a counter.
pub fn to_row(counter: u64) -> (r: i64)
    ensures
        r == row_of(counter),
        counter_of(r) == counter,
{
    if counter <= i64::MAX as u64 {
        counter as i64
    } else {
        (counter as i128 - 0x1_0000_0000_0000_0000) as i64
    }
}

/// The counter that a row holds.
pub fn last_counter(row: i64) -> (r: u64)
    ensures
        r == counter_of(row),
        row_of(r) == row,
{
    if row >= 0 {
        row as u64
    } else {
        (row as i128 + 0x1_0000_0000_0000_0000) as u64
    }
}

/// What a counter is worth, given the row its pool has.
pub open spec fn worth(last: Option<i64>, counter: u64) -> Reservation {
    match last {
        Some(row) if row_of(counter) <= row => Reservation::Replayed {
            last: counter_of(row) as u64,
        },
        _ => Reservation::Reserved { row: row_of(counter) as i64 },
    }
}

/// Claim `counter` if it is past everything accepted so far, which is the row the pool has. A
/// counter past the range of a row takes 2^63 uploads from one pool, and a wrapped value only fails
/// to advance.
pub fn reserve(last: Option<i64>, counter: u64) -> (r: Reservation)
    ensures
        r == worth(last, counter),
{
    let row = to_row(counter);
    match last {
        Some(held) if row <= held => Reservation::Replayed { last: last_counter(held) },
        _ => Reservation::Reserved { row },
    }
}

/// What a pool's row is after a submission was stored.
pub open spec fn after(last: Option<i64>, counter: u64) -> Option<i64> {
    match worth(last, counter) {
        Reservation::Reserved { row } => Some(row),
        Reservation::Replayed { .. } => last,
    }
}

/// What is accepted once is not accepted again, and the row only rises.
pub proof fn a_counter_is_spent_once(last: Option<i64>, counter: u64)
    ensures
        worth(after(last, counter), counter) is Replayed,
        last is Some ==> after(last, counter) is Some && last->0 <= after(last, counter)->0,
        worth(last, counter) is Reserved && last is Some ==> last->0 < after(last, counter)->0,
{
}

/// Whatever was stored in between, a counter that was accepted stays spent.
pub proof fn a_spent_counter_stays_spent(last: Option<i64>, counter: u64, between: Seq<u64>)
    ensures
        worth(
            between.fold_left(after(last, counter), |row: Option<i64>, next: u64| after(row, next)),
            counter,
        ) is Replayed,
    decreases between.len(),
{
    let step = |row: Option<i64>, next: u64| after(row, next);
    let start = after(last, counter);
    lemma_row_rises(start, between);
    a_counter_is_spent_once(last, counter);
    let end = between.fold_left(start, step);
    assert(start is Some && end is Some && start->0 <= end->0);
}

proof fn lemma_row_rises(start: Option<i64>, between: Seq<u64>)
    requires
        start is Some,
    ensures
        ({
            let end = between.fold_left(start, |row: Option<i64>, next: u64| after(row, next));
            end is Some && start->0 <= end->0
        }),
    decreases between.len(),
{
    if between.len() > 0 {
        lemma_row_rises(start, between.drop_last());
        let step = |row: Option<i64>, next: u64| after(row, next);
        let before = between.drop_last().fold_left(start, step);
        a_counter_is_spent_once(before, between.last());
        assert(between.fold_left(start, step) == step(before, between.last()));
    }
}

/// The first counter of a pool is always reserved, and then every counter above the last: of two on
/// the same side of the sign that a row has, the greater is above. What is replayed is told the
/// last counter that was reserved.
pub proof fn a_greater_counter_is_reserved(last: u64, counter: u64)
    requires
        last <= i64::MAX <==> counter <= i64::MAX,
    ensures
        worth(None, counter) == (Reservation::Reserved { row: row_of(counter) as i64 }),
        last < counter ==> worth(Some(row_of(last) as i64), counter) == (Reservation::Reserved {
            row: row_of(counter) as i64,
        }),
        last >= counter ==> worth(Some(row_of(last) as i64), counter) == (Reservation::Replayed {
            last,
        }),
        counter_of(row_of(counter) as i64) == counter,
{
}

}
