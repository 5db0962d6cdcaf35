//! The rebuildable index, holding the one thing the archive alone answers too slowly: one row per
//! stored object, for the developer listing.
//!
//! A submission row is its object key and nothing else. Everything a listing reports is encoded in
//! that key, so a row written at ingest and one written by `rebuild` cannot disagree.

use vstd::prelude::*;

use crate::count::NonZeroU32;
use crate::key;
use crate::key::{Name, ObjectName, ObjectNameError};
use crate::text;

verus! {

/// Why the index has no answer.
#[derive(Debug)]
pub enum IndexError {
    Sqlite(String),
    Migrate(String),
    /// A row nothing can parse back: the index was written by something other than `record`, and
    /// reporting the key as a submission would hand a developer a key the archive does not hold.
    ObjectName(ObjectNameError),
}

impl IndexError {
    /// What an operator reads.
    pub open spec fn spelled(self) -> Seq<char> {
        match self {
            IndexError::Sqlite(error) => "sqlite: "@ + error@,
            IndexError::Migrate(error) => error@,
            IndexError::ObjectName(error) =>
                "the index holds a row that is not an object key: "@ + key::key_fault_text(
                error.key@,
                error.reason@,
            ),
        }
    }

    /// What an operator reads.
    pub fn message(&self) -> (r: String)
        ensures
            r@ == self.spelled(),
    {
        match self {
            IndexError::Sqlite(error) => {
                let mut r = String::from_str("sqlite: ");
                r.append(error.as_str());
                r
            },
            IndexError::Migrate(error) => error.clone(),
            IndexError::ObjectName(error) => {
                let mut r = String::from_str("the index holds a row that is not an object key: ");
                r.append(error.message().as_str());
                r
            },
        }
    }
}

/// One page of the archive as the index holds it.
#[derive(Debug)]
pub struct Listing {
    pub objects: Vec<ObjectName>,
    /// The bound cut the answer off, so there is more after the last key. Reported rather than
    /// implied: a caller that reads a short page as the whole archive would silently miss
    /// everything past it.
    pub truncated: bool,
}

/// What object names are, over plain values.
pub open spec fn names(objects: Seq<ObjectName>) -> Seq<Name> {
    objects.map_values(|name: ObjectName| name@)
}

/// What keys name, in their order, or the first of them that names nothing and why.
pub open spec fn all_parsed(keys: Seq<Seq<char>>) -> Result<Seq<Name>, (Seq<char>, Seq<char>)>
    decreases keys.len(),
{
    if keys.len() == 0 {
        Ok(seq![])
    } else {
        match all_parsed(keys.drop_last()) {
            Err(fault) => Err(fault),
            Ok(before) => match key::parsed(keys.last()) {
                Ok(name) => Ok(before.push(name)),
                Err(reason) => Err((keys.last(), reason)),
            },
        }
    }
}

/// The keys of an answer that was asked for one past the bound, without that one.
pub open spec fn within_bound(keys: Seq<Seq<char>>, limit: int) -> Seq<Seq<char>> {
    if keys.len() == limit + 1 {
        keys.drop_last()
    } else {
        keys
    }
}

proof fn lemma_fault_stays(keys: Seq<Seq<char>>, i: int)
    requires
        0 <= i <= keys.len(),
        all_parsed(keys.take(i)) is Err,
    ensures
        all_parsed(keys) == all_parsed(keys.take(i)),
    decreases keys.len() - i,
{
    if i < keys.len() {
        assert(keys.take(i + 1).drop_last() =~= keys.take(i));
        lemma_fault_stays(keys, i + 1);
    } else {
        assert(keys.take(i) =~= keys);
    }
}

/// How many rows a page asks for: one past the bound, so a full page is told from a cut-off one
/// without counting the same rows again.
pub fn asked(limit: NonZeroU32) -> (r: i64)
    ensures
        r == limit@ + 1,
{
    limit.get() as i64 + 1
}

/// The pattern the rows under a prefix match.
pub fn pattern(prefix: &str) -> (r: String)
    ensures
        r@ == prefix@ + "*"@,
{
    let mut r = String::from_str(prefix);
    r.append("*");
    r
}

/// The page that rows make, which were asked for in key order and one past the bound.
pub fn listing(keys: Vec<String>, limit: NonZeroU32) -> (r: Result<Listing, IndexError>)
    ensures
        match r {
            Ok(found) => {
                &&& found.truncated == (keys@.len() == limit@ + 1)
                &&& all_parsed(within_bound(text::views(keys@), limit@)) == Ok::<
                    Seq<Name>,
                    (Seq<char>, Seq<char>),
                >(names(found.objects@))
            },
            Err(error) => error is ObjectName && all_parsed(
                within_bound(text::views(keys@), limit@),
            ) == Err::<Seq<Name>, (Seq<char>, Seq<char>)>(
                (error->ObjectName_0.key@, error->ObjectName_0.reason@),
            ),
        },
{
    let ghost words = text::views(keys@);
    let bound = limit.get();
    let mut kept = keys;
    let truncated: bool = kept.len() as u64 == bound as u64 + 1;
    if truncated {
        kept.pop();
        assert(text::views(kept@) =~= words.drop_last());
    }
    let ghost all = within_bound(words, limit@);
    assert(text::views(kept@) =~= all);
    let mut objects: Vec<ObjectName> = Vec::new();
    assert(names(objects@) =~= seq![]);
    for i in 0..kept.len()
        invariant
            text::views(kept@) == all,
            all_parsed(all.take(i as int)) == Ok::<Seq<Name>, (Seq<char>, Seq<char>)>(
                names(objects@),
            ),
            all == within_bound(words, limit@),
            words == text::views(keys@),
    {
        let ghost before = objects@;
        assert(all.take(i + 1).drop_last() =~= all.take(i as int));
        assert(all.take(i + 1).last() == kept@[i as int]@);
        match ObjectName::parse(kept[i].as_str()) {
            Ok(name) => {
                objects.push(name);
                assert(names(objects@) =~= names(before).push(name@));
            },
            Err(error) => {
                proof {
                    lemma_fault_stays(all, i + 1);
                }
                return Err(IndexError::ObjectName(error));
            },
        }
    }
    assert(all.take(kept@.len() as int) =~= all);
    Ok(Listing { objects, truncated })
}

/// A row is its key: what was recorded under the keys of some objects is listed as those objects.
pub proof fn rows_read_back(recorded: Seq<Name>)
    requires
        forall|i: int|
            0 <= i < recorded.len() ==> key::parsed((#[trigger] recorded[i]).key()) == Ok::<
                Name,
                Seq<char>,
            >(recorded[i]),
    ensures
        all_parsed(recorded.map_values(|name: Name| name.key())) == Ok::<
            Seq<Name>,
            (Seq<char>, Seq<char>),
        >(recorded),
    decreases recorded.len(),
{
    let keys = recorded.map_values(|name: Name| name.key());
    if recorded.len() > 0 {
        let rest = recorded.drop_last();
        rows_read_back(rest);
        assert(keys.drop_last() =~= rest.map_values(|name: Name| name.key()));
        assert(keys.last() == recorded[recorded.len() - 1].key());
        assert(rest.push(recorded.last()) =~= recorded);
    } else {
        assert(recorded =~= seq![]);
    }
}

/// The rows are read in their order, every one of them or none: the objects named are those of the
/// rows, and a row that names none stops the reading, the first of them by name.
pub proof fn every_row_is_read(keys: Seq<Seq<char>>)
    ensures
        all_parsed(keys) is Ok <==> forall|i: int|
            0 <= i < keys.len() ==> key::parsed(#[trigger] keys[i]) is Ok,
        all_parsed(keys) matches Ok(read) ==> read.len() == keys.len() && forall|i: int|
            0 <= i < keys.len() ==> key::parsed(#[trigger] keys[i]) == Ok::<Name, Seq<char>>(
                read[i],
            ),
        all_parsed(keys) matches Err((key, reason)) ==> exists|n: int|
            0 <= n < keys.len() && #[trigger] keys[n] == key && key::parsed(key) == Err::<
                Name,
                Seq<char>,
            >(reason) && forall|i: int| 0 <= i < n ==> key::parsed(#[trigger] keys[i]) is Ok,
    decreases keys.len(),
{
    if keys.len() > 0 {
        let before = keys.drop_last();
        every_row_is_read(before);
        assert(forall|i: int| 0 <= i < before.len() ==> before[i] == #[trigger] keys[i]);
        assert(keys[keys.len() - 1] == keys.last());
        match all_parsed(before) {
            Err((key, reason)) => {
                let n = choose|n: int|
                    0 <= n < before.len() && #[trigger] before[n] == key && key::parsed(key)
                        == Err::<Name, Seq<char>>(reason) && forall|i: int|
                        0 <= i < n ==> key::parsed(#[trigger] before[i]) is Ok;
                assert(keys[n] == key);
                assert forall|i: int| 0 <= i < n implies key::parsed(#[trigger] keys[i]) is Ok by {
                    assert(before[i] == keys[i]);
                }
            },
            Ok(_) => {
                assert forall|i: int| 0 <= i < before.len() implies key::parsed(
                    #[trigger] keys[i],
                ) is Ok by {
                    assert(before[i] == keys[i]);
                }
            },
        }
    }
}

/// One row more than the bound is asked for, and it tells whether more follow: of all rows that
/// there are, a listing keeps as many as the bound allows, the first ones.
pub proof fn one_row_more_tells(all: Seq<Seq<char>>, limit: int)
    requires
        0 < limit,
    ensures
        ({
            let found = if all.len() <= limit + 1 {
                all
            } else {
                all.take(limit + 1)
            };
            &&& found.len() == limit + 1 <==> all.len() > limit
            &&& all.len() > limit ==> within_bound(found, limit) == all.take(limit)
            &&& all.len() <= limit ==> within_bound(found, limit) == all
        }),
{
    let found = if all.len() <= limit + 1 {
        all
    } else {
        all.take(limit + 1)
    };
    if all.len() > limit {
        assert(found.drop_last() =~= all.take(limit));
    }
}

}
