//! The key roster: which Leios keys the chain registers for each pool. A file that something
//! outside this server writes; this server reads it, and re-reads it when it changes.

use vstd::prelude::*;

use crate::hex;
use crate::hex::HexError;
use crate::outside;
use crate::table::Table;
use crate::text;
use crate::wire::attestation::{LeiosPublicKey, LEIOS_KEY_BYTES};
use crate::wire::journal::{INFO, WARNING};
use crate::wire::pool;
use crate::wire::pool::{PoolId, PoolIdError};

verus! {

/// One key as the file lists it, in hex, and what a verifier of Leios signatures answered of its
/// bytes: why they are no key, or nothing where they are one. A text that spells no bytes of a
/// key's length is refused before that answer counts.
#[derive(Debug)]
pub struct ListedKey {
    pub text: String,
    pub refusal: Option<String>,
}

/// What a `ListedKey` is, over plain values.
pub struct Listed {
    pub text: Seq<char>,
    pub refusal: Option<Seq<char>>,
}

impl View for ListedKey {
    type V = Listed;

    open spec fn view(&self) -> Listed {
        Listed { text: self.text@, refusal: text::view_of(self.refusal) }
    }
}

/// The file as read: the chain position it was taken at, and the keys of each pool, both keyed and
/// valued in hex.
#[derive(Debug)]
pub struct RosterFile {
    pub epoch: u64,
    pub slot: u64,
    pub pools: Vec<(String, Vec<ListedKey>)>,
}

/// A roster that could not be read, and the file it was read from.
#[derive(Debug)]
pub struct RosterError {
    pub path: String,
    pub kind: Unreadable,
}

/// Why a roster could not be read.
#[derive(Debug)]
pub enum Unreadable {
    Read { reason: String },
    Parse { reason: String },
    NotAPoolId { found: String, source: PoolIdError },
    NotHex { pool_id: PoolId, at: usize, fault: HexError },
    NotAKey { pool_id: PoolId, at: usize, reason: String },
}

/// What an `Unreadable` is, over plain values.
pub enum RosterFault {
    Read { reason: Seq<char> },
    Parse { reason: Seq<char> },
    NotAPoolId { found: Seq<char>, source: pool::PoolIdFault },
    NotHex { pool: Seq<u8>, at: int, fault: HexError },
    NotAKey { pool: Seq<u8>, at: int, reason: Seq<char> },
}

/// Enough of the file's metadata to say it is not the one already read. Both halves, because a
/// rewrite within the timestamp's resolution can still change the length.
#[derive(Debug, Clone, Copy, PartialEq, Eq, Structural)]
pub struct Stamp {
    /// When it was last changed, in nanoseconds since 1970.
    pub modified: i128,
    pub len: u64,
}

/// What the roster held when it was last read, and what it was read from.
#[derive(Debug)]
pub struct Roster {
    pub path: String,
    pub epoch: u64,
    pub slot: u64,
    pub pools: Table<Vec<LeiosPublicKey>>,
    pub read_from: Option<Stamp>,
}

impl View for Unreadable {
    type V = RosterFault;

    open spec fn view(&self) -> RosterFault {
        match *self {
            Unreadable::Read { reason } => RosterFault::Read { reason: reason@ },
            Unreadable::Parse { reason } => RosterFault::Parse { reason: reason@ },
            Unreadable::NotAPoolId { found, source } => RosterFault::NotAPoolId {
                found: found@,
                source: source.fault(),
            },
            Unreadable::NotHex { pool_id, at, fault } => RosterFault::NotHex {
                pool: pool_id@,
                at: at as int,
                fault,
            },
            Unreadable::NotAKey { pool_id, at, reason } => RosterFault::NotAKey {
                pool: pool_id@,
                at: at as int,
                reason: reason@,
            },
        }
    }
}

impl RosterFault {
    /// What is said of the file.
    pub open spec fn spelled(self) -> Seq<char> {
        match self {
            RosterFault::Read { reason } => "cannot be read: "@ + reason,
            RosterFault::Parse { reason } => "is not the JSON this build reads: "@ + reason,
            RosterFault::NotAPoolId { found, source } => "is keyed by "@ + outside::quoted(found)
                + ", which is not a pool id: "@ + pool::pool_fault_text(source),
            RosterFault::NotHex { pool, at, fault } => "lists a key "@ + text::decimal(at)
                + " for pool "@ + pool::bech32_of_pool(pool) + " that is not hex: "@
                + fault.spelled(),
            RosterFault::NotAKey { pool, at, reason } => "lists a key "@ + text::decimal(at)
                + " for pool "@ + pool::bech32_of_pool(pool) + " that is no key: "@ + reason,
        }
    }
}

/// What an operator reads of a roster that could not be read.
pub open spec fn roster_error_text(path: Seq<char>, fault: RosterFault) -> Seq<char> {
    "the Leios key roster "@ + path + " "@ + fault.spelled()
}

impl Unreadable {
    /// What is said of the file.
    pub fn message(&self) -> (r: String)
        ensures
            r@ == self@.spelled(),
    {
        match self {
            Unreadable::Read { reason } => {
                let mut r = String::from_str("cannot be read: ");
                r.append(reason.as_str());
                r
            },
            Unreadable::Parse { reason } => {
                let mut r = String::from_str("is not the JSON this build reads: ");
                r.append(reason.as_str());
                r
            },
            Unreadable::NotAPoolId { found, source } => {
                let mut r = String::from_str("is keyed by ");
                r.append(outside::quote(found.as_str()).as_str());
                r.append(", which is not a pool id: ");
                r.append(source.message().as_str());
                r
            },
            Unreadable::NotHex { pool_id, at, fault } => {
                let mut r = String::from_str("lists a key ");
                r.append(text::decimal_of(*at as u128).as_str());
                r.append(" for pool ");
                r.append(pool_id.to_bech32().as_str());
                r.append(" that is not hex: ");
                r.append(fault.message().as_str());
                r
            },
            Unreadable::NotAKey { pool_id, at, reason } => {
                let mut r = String::from_str("lists a key ");
                r.append(text::decimal_of(*at as u128).as_str());
                r.append(" for pool ");
                r.append(pool_id.to_bech32().as_str());
                r.append(" that is no key: ");
                r.append(reason.as_str());
                r
            },
        }
    }
}

impl RosterError {
    /// What an operator reads.
    pub fn message(&self) -> (r: String)
        ensures
            r@ == roster_error_text(self.path@, self.kind@),
    {
        let mut r = String::from_str("the Leios key roster ");
        r.append(self.path.as_str());
        r.append(" ");
        r.append(self.kind.message().as_str());
        r
    }
}

/// The keys that a file lists for a pool, from the place `at` on: each has to spell bytes of a
/// key's length, and those have to be a key.
pub open spec fn keys_read(pool: Seq<u8>, listed: Seq<Listed>, at: int) -> Result<
    Seq<Seq<u8>>,
    RosterFault,
>
    decreases listed.len() - at,
{
    if at >= listed.len() {
        Ok(Seq::empty())
    } else {
        match hex::decoded_exact(listed[at].text, LEIOS_KEY_BYTES as int) {
            Err(fault) => Err(RosterFault::NotHex { pool, at, fault }),
            Ok(key) => match listed[at].refusal {
                Some(reason) => Err(RosterFault::NotAKey { pool, at, reason }),
                None => match keys_read(pool, listed, at + 1) {
                    Err(fault) => Err(fault),
                    Ok(rest) => Ok(seq![key] + rest),
                },
            },
        }
    }
}

/// The keys of each pool that entries name, put into `pools` one entry after the other.
pub open spec fn entries_read(
    entries: Seq<(Seq<char>, Seq<Listed>)>,
    pools: Map<Seq<u8>, Seq<Seq<u8>>>,
) -> Result<Map<Seq<u8>, Seq<Seq<u8>>>, RosterFault>
    decreases entries.len(),
{
    if entries.len() == 0 {
        Ok(pools)
    } else {
        let (name, listed) = entries[0];
        match pool::pool_of_hex(name) {
            Err(source) => Err(RosterFault::NotAPoolId { found: name, source }),
            Ok(pool) => match keys_read(pool, listed, 0) {
                Err(fault) => Err(fault),
                Ok(keys) => entries_read(entries.skip(1), pools.insert(pool, keys)),
            },
        }
    }
}

/// The views of the keys of a pool.
pub open spec fn key_views(keys: Seq<LeiosPublicKey>) -> Seq<Seq<u8>> {
    keys.map_values(|key: LeiosPublicKey| key@)
}

/// A table of keys, over plain bytes.
pub open spec fn pools_view(pools: Map<Seq<u8>, Vec<LeiosPublicKey>>) -> Map<
    Seq<u8>,
    Seq<Seq<u8>>,
> {
    pools.map_values(|keys: Vec<LeiosPublicKey>| key_views(keys@))
}

/// The keys a file lists for a pool, over plain values.
pub open spec fn listed_views(listed: Seq<ListedKey>) -> Seq<Listed> {
    listed.map_values(|key: ListedKey| key@)
}

/// The entries of a file, over plain values.
pub open spec fn entry_views(entries: Seq<(String, Vec<ListedKey>)>) -> Seq<
    (Seq<char>, Seq<Listed>),
> {
    entries.map_values(|e: (String, Vec<ListedKey>)| (e.0@, listed_views(e.1@)))
}

fn read_keys(pool_id: PoolId, listed: &Vec<ListedKey>) -> (r: Result<Vec<LeiosPublicKey>, Unreadable>)
    ensures
        match r {
            Ok(keys) => keys_read(pool_id@, listed_views(listed@), 0) == Ok::<
                Seq<Seq<u8>>,
                RosterFault,
            >(key_views(keys@)),
            Err(error) => keys_read(pool_id@, listed_views(listed@), 0) == Err::<
                Seq<Seq<u8>>,
                RosterFault,
            >(error@),
        },
{
    let ghost all = listed_views(listed@);
    let mut keys: Vec<LeiosPublicKey> = Vec::new();
    for at in 0..listed.len()
        invariant
            all == listed_views(listed@),
            match keys_read(pool_id@, all, at as int) {
                Ok(rest) => keys_read(pool_id@, all, 0) == Ok::<Seq<Seq<u8>>, RosterFault>(
                    key_views(keys@) + rest,
                ),
                Err(fault) => keys_read(pool_id@, all, 0) == Err::<Seq<Seq<u8>>, RosterFault>(
                    fault,
                ),
            },
    {
        assert(all[at as int] == listed@[at as int]@);
        match hex::decode(listed[at].text.as_str(), LEIOS_KEY_BYTES) {
            Err(fault) => {
                return Err(Unreadable::NotHex { pool_id, at, fault });
            },
            Ok(bytes) => {
                if let Some(reason) = &listed[at].refusal {
                    return Err(Unreadable::NotAKey { pool_id, at, reason: reason.clone() });
                }
                let ghost before = keys@;
                keys.push(LeiosPublicKey { bytes });
                proof {
                    assert(key_views(keys@) =~= key_views(before).push(bytes@));
                    if let Ok(rest) = keys_read(pool_id@, all, at + 1) {
                        assert(key_views(before) + (seq![bytes@] + rest) =~= key_views(keys@)
                            + rest);
                    }
                }
            },
        }
    }
    assert(key_views(keys@) + Seq::<Seq<u8>>::empty() =~= key_views(keys@));
    Ok(keys)
}

impl Roster {
    /// The keys each pool has, over plain bytes.
    pub open spec fn registered(self) -> Map<Seq<u8>, Seq<Seq<u8>>> {
        pools_view(self.pools@)
    }

    /// What a file holds, or why it is no roster. Every reason is about the one file.
    pub fn read_file(path: &str, file: &RosterFile, read_from: Option<Stamp>) -> (r: Result<
        Roster,
        RosterError,
    >)
        ensures
            match r {
                Ok(roster) => {
                    &&& entries_read(entry_views(file.pools@), Map::empty()) == Ok::<
                        Map<Seq<u8>, Seq<Seq<u8>>>,
                        RosterFault,
                    >(roster.registered())
                    &&& roster.path@ == path@
                    &&& roster.epoch == file.epoch
                    &&& roster.slot == file.slot
                    &&& roster.read_from == read_from
                },
                Err(error) => error.path@ == path@ && entries_read(
                    entry_views(file.pools@),
                    Map::empty(),
                ) == Err::<Map<Seq<u8>, Seq<Seq<u8>>>, RosterFault>(error.kind@),
            },
    {
        let ghost entries = entry_views(file.pools@);
        let mut pools: Table<Vec<LeiosPublicKey>> = Table::new();
        assert(pools_view(pools@) =~= Map::empty());
        assert(entries.skip(0) =~= entries);
        for i in 0..file.pools.len()
            invariant
                entries == entry_views(file.pools@),
                entries_read(entries, Map::empty()) == entries_read(
                    entries.skip(i as int),
                    pools_view(pools@),
                ),
        {
            let ghost rest = entries.skip(i as int);
            assert(rest[0] == (file.pools@[i as int].0@, listed_views(file.pools@[i as int].1@)));
            assert(rest.skip(1) =~= entries.skip(i + 1));
            let pool_id = match PoolId::from_hex(file.pools[i].0.as_str()) {
                Ok(pool_id) => pool_id,
                Err(source) => {
                    return Err(
                        RosterError {
                            path: String::from_str(path),
                            kind: Unreadable::NotAPoolId { found: file.pools[i].0.clone(), source },
                        },
                    );
                },
            };
            match read_keys(pool_id, &file.pools[i].1) {
                Err(kind) => {
                    return Err(RosterError { path: String::from_str(path), kind });
                },
                Ok(keys) => {
                    let ghost before = pools@;
                    pools.insert(pool_id.hash.as_slice(), keys);
                    assert(pools_view(pools@) =~= pools_view(before).insert(
                        pool_id@,
                        key_views(keys@),
                    ));
                },
            }
        }
        assert(entries.skip(file.pools@.len() as int).len() == 0);
        Ok(
            Roster {
                path: String::from_str(path),
                epoch: file.epoch,
                slot: file.slot,
                pools,
                read_from,
            },
        )
    }

    /// Whether the chain registers `key` for `pool_id`, as of this roster. The lookup is what a
    /// claimed pool id is believed on, so it answers only about the pool that was claimed.
    pub fn registers(&self, pool_id: PoolId, key: &LeiosPublicKey) -> (r: bool)
        ensures
            r == (self.registered().contains_key(pool_id@) && self.registered()[pool_id@].contains(
                key@,
            )),
    {
        match self.pools.get(pool_id.hash.as_slice()) {
            None => false,
            Some(keys) => {
                let ghost all = key_views(keys@);
                assert(self.registered()[pool_id@] == all);
                for i in 0..keys.len()
                    invariant
                        self.registered().contains_key(pool_id@),
                        self.registered()[pool_id@] == all,
                        all == key_views(keys@),
                        forall|j: int| 0 <= j < i ==> #[trigger] all[j] != key@,
                {
                    assert(all[i as int] == keys@[i as int]@);
                    if keys[i].same(key) {
                        assert(all.contains(key@));
                        return true;
                    }
                }
                assert(!all.contains(key@));
                false
            },
        }
    }

    /// The chain position the roster was taken at.
    pub fn position(&self) -> (r: (u64, u64))
        ensures
            r == (self.epoch, self.slot),
    {
        (self.epoch, self.slot)
    }

    /// Whether the file on disk may not be the one already read. A file that cannot be stated is
    /// read in full, to let that report the reason.
    pub fn is_stale(&self, stamp: Option<Stamp>) -> (r: bool)
        ensures
            r == (stamp is None || stamp != self.read_from),
    {
        match (stamp, self.read_from) {
            (Some(found), Some(held)) => found != held,
            _ => true,
        }
    }

    /// Take a re-read, and say what came of it. One that failed keeps what is loaded: emptying
    /// the roster because a writer was halfway through writing it would refuse every pool.
    pub fn reloaded(&mut self, reread: Result<Roster, RosterError>) -> (r: String)
        ensures
            match reread {
                Ok(roster) => *final(self) == roster && r@ == INFO@
                    + "reloaded the Leios key roster "@ + roster.path@ + ", taken in epoch "@
                    + text::decimal(roster.epoch as int) + " at slot "@ + text::decimal(
                    roster.slot as int,
                ),
                Err(error) => *final(self) == *old(self) && r@ == WARNING@ + roster_error_text(
                    error.path@,
                    error.kind@,
                ) + "; keeping the roster already loaded"@,
            },
    {
        match reread {
            Ok(roster) => {
                let mut r = String::from_str(INFO);
                r.append("reloaded the Leios key roster ");
                r.append(roster.path.as_str());
                r.append(", taken in epoch ");
                r.append(text::decimal_of(roster.epoch as u128).as_str());
                r.append(" at slot ");
                r.append(text::decimal_of(roster.slot as u128).as_str());
                *self = roster;
                r
            },
            Err(error) => {
                let mut r = String::from_str(WARNING);
                r.append(error.message().as_str());
                r.append("; keeping the roster already loaded");
                r
            },
        }
    }
}

/// Whether an entry of a roster reads: it is keyed by a pool, and each key it lists spells bytes of
/// a key's length that are a key.
pub open spec fn reads(entry: (Seq<char>, Seq<Listed>)) -> bool {
    &&& pool::pool_of_hex(entry.0) is Ok
    &&& forall|j: int|
        0 <= j < entry.1.len() ==> hex::decoded_exact(
            (#[trigger] entry.1[j]).text,
            LEIOS_KEY_BYTES as int,
        ) is Ok && entry.1[j].refusal is None
}

/// The keys of an entry are those its texts spell, all of them and in their order, from `at` on.
proof fn lemma_keys_are_spelled(pool: Seq<u8>, listed: Seq<Listed>, at: int)
    requires
        0 <= at <= listed.len(),
    ensures
        keys_read(pool, listed, at) is Ok <==> forall|j: int|
            at <= j < listed.len() ==> hex::decoded_exact(
                (#[trigger] listed[j]).text,
                LEIOS_KEY_BYTES as int,
            ) is Ok && listed[j].refusal is None,
        keys_read(pool, listed, at) matches Ok(keys) ==> keys.len() == listed.len() - at && forall|
            j: int,
        |
            0 <= j < keys.len() ==> hex::decoded_exact(
                listed[at + j].text,
                LEIOS_KEY_BYTES as int,
            ) == Ok::<Seq<u8>, HexError>(#[trigger] keys[j]),
    decreases listed.len() - at,
{
    if at < listed.len() {
        lemma_keys_are_spelled(pool, listed, at + 1);
        if let Ok(rest) = keys_read(pool, listed, at + 1) {
            if let Ok(keys) = keys_read(pool, listed, at) {
                assert forall|j: int| 0 <= j < keys.len() implies hex::decoded_exact(
                    listed[at + j].text,
                    LEIOS_KEY_BYTES as int,
                ) == Ok::<Seq<u8>, HexError>(#[trigger] keys[j]) by {
                    if j > 0 {
                        assert(keys[j] == rest[j - 1]);
                    }
                }
            }
        }
        if forall|j: int|
            at <= j < listed.len() ==> hex::decoded_exact(
                (#[trigger] listed[j]).text,
                LEIOS_KEY_BYTES as int,
            ) is Ok && listed[j].refusal is None {
            assert(hex::decoded_exact(listed[at].text, LEIOS_KEY_BYTES as int) is Ok);
        }
    }
}

proof fn lemma_pools_put_in(
    entries: Seq<(Seq<char>, Seq<Listed>)>,
    pools: Map<Seq<u8>, Seq<Seq<u8>>>,
    pool: Seq<u8>,
)
    requires
        entries_read(entries, pools) is Ok,
    ensures
        entries_read(entries, pools)->Ok_0.contains_key(pool) <==> pools.contains_key(pool)
            || exists|i: int|
            0 <= i < entries.len() && pool::pool_of_hex((#[trigger] entries[i]).0) == Ok::<
                Seq<u8>,
                pool::PoolIdFault,
            >(pool),
        (forall|i: int|
            0 <= i < entries.len() ==> pool::pool_of_hex((#[trigger] entries[i]).0) != Ok::<
                Seq<u8>,
                pool::PoolIdFault,
            >(pool)) && pools.contains_key(pool) ==> entries_read(entries, pools)->Ok_0[pool]
            == pools[pool],
    decreases entries.len(),
{
    if entries.len() > 0 {
        let first = pool::pool_of_hex(entries[0].0)->Ok_0;
        let keys = keys_read(first, entries[0].1, 0)->Ok_0;
        let rest = entries.skip(1);
        lemma_pools_put_in(rest, pools.insert(first, keys), pool);
        if exists|i: int|
            0 <= i < rest.len() && pool::pool_of_hex((#[trigger] rest[i]).0) == Ok::<
                Seq<u8>,
                pool::PoolIdFault,
            >(pool) {
            let i = choose|i: int|
                0 <= i < rest.len() && pool::pool_of_hex((#[trigger] rest[i]).0) == Ok::<
                    Seq<u8>,
                    pool::PoolIdFault,
                >(pool);
            assert(entries[i + 1] == rest[i]);
        }
        if exists|i: int|
            0 <= i < entries.len() && pool::pool_of_hex((#[trigger] entries[i]).0) == Ok::<
                Seq<u8>,
                pool::PoolIdFault,
            >(pool) {
            let i = choose|i: int|
                0 <= i < entries.len() && pool::pool_of_hex((#[trigger] entries[i]).0) == Ok::<
                    Seq<u8>,
                    pool::PoolIdFault,
                >(pool);
            if i > 0 {
                assert(rest[i - 1] == entries[i]);
            } else {
                assert(pool == first);
            }
        }
        assert forall|i: int| 0 <= i < rest.len() implies #[trigger] rest[i] == entries[i + 1] by {}
    }
}

proof fn lemma_entry_put_in(
    entries: Seq<(Seq<char>, Seq<Listed>)>,
    pools: Map<Seq<u8>, Seq<Seq<u8>>>,
    i: int,
)
    requires
        entries_read(entries, pools) is Ok,
        0 <= i < entries.len(),
        forall|j: int|
            i < j < entries.len() ==> pool::pool_of_hex((#[trigger] entries[j]).0)
                != pool::pool_of_hex(entries[i].0),
    ensures
        pool::pool_of_hex(entries[i].0) is Ok,
        ({
            let pool = pool::pool_of_hex(entries[i].0)->Ok_0;
            &&& entries_read(entries, pools)->Ok_0.contains_key(pool)
            &&& keys_read(pool, entries[i].1, 0) == Ok::<Seq<Seq<u8>>, RosterFault>(
                entries_read(entries, pools)->Ok_0[pool],
            )
        }),
    decreases entries.len(),
{
    let first = pool::pool_of_hex(entries[0].0)->Ok_0;
    let keys = keys_read(first, entries[0].1, 0)->Ok_0;
    let rest = entries.skip(1);
    assert forall|j: int| 0 <= j < rest.len() implies #[trigger] rest[j] == entries[j + 1] by {}
    if i == 0 {
        lemma_pools_put_in(rest, pools.insert(first, keys), first);
    } else {
        lemma_entry_put_in(rest, pools.insert(first, keys), i - 1);
    }
}

/// A roster speaks for every pool of its file: each entry is kept, whatever else the file holds,
/// with every key that it lists and in the order that it lists them. Where two entries are keyed by
/// one pool, the later one stands. No other pool is in it.
pub proof fn every_entry_is_kept(entries: Seq<(Seq<char>, Seq<Listed>)>, i: int, other: Seq<u8>)
    requires
        entries_read(entries, Map::empty()) is Ok,
        0 <= i < entries.len(),
        forall|j: int|
            i < j < entries.len() ==> pool::pool_of_hex((#[trigger] entries[j]).0)
                != pool::pool_of_hex(entries[i].0),
    ensures
        ({
            let held = entries_read(entries, Map::empty())->Ok_0;
            let pool = pool::pool_of_hex(entries[i].0)->Ok_0;
            &&& pool::pool_of_hex(entries[i].0) is Ok
            &&& held.contains_key(pool)
            &&& held[pool].len() == entries[i].1.len()
            &&& forall|j: int|
                0 <= j < held[pool].len() ==> hex::decoded_exact(
                    entries[i].1[j].text,
                    LEIOS_KEY_BYTES as int,
                ) == Ok::<Seq<u8>, HexError>(#[trigger] held[pool][j])
            &&& held.contains_key(other) ==> exists|k: int|
                0 <= k < entries.len() && pool::pool_of_hex((#[trigger] entries[k]).0) == Ok::<
                    Seq<u8>,
                    pool::PoolIdFault,
                >(other)
        }),
{
    lemma_entry_put_in(entries, Map::empty(), i);
    lemma_pools_put_in(entries, Map::empty(), other);
    let pool = pool::pool_of_hex(entries[i].0)->Ok_0;
    lemma_keys_are_spelled(pool, entries[i].1, 0);
}

proof fn lemma_reads(
    entries: Seq<(Seq<char>, Seq<Listed>)>,
    pools: Map<Seq<u8>, Seq<Seq<u8>>>,
)
    ensures
        entries_read(entries, pools) is Ok <==> forall|i: int|
            0 <= i < entries.len() ==> reads(#[trigger] entries[i]),
    decreases entries.len(),
{
    if entries.len() > 0 {
        let rest = entries.skip(1);
        assert forall|j: int| 0 <= j < rest.len() implies #[trigger] rest[j] == entries[j + 1] by {}
        assert(forall|i: int| 0 < i < entries.len() ==> #[trigger] entries[i] == rest[i - 1]);
        if let Ok(pool) = pool::pool_of_hex(entries[0].0) {
            lemma_keys_are_spelled(pool, entries[0].1, 0);
            if let Ok(keys) = keys_read(pool, entries[0].1, 0) {
                lemma_reads(rest, pools.insert(pool, keys));
            } else {
                assert(!reads(entries[0]));
            }
        } else {
            assert(!reads(entries[0]));
        }
        if forall|i: int| 0 <= i < rest.len() ==> reads(#[trigger] rest[i]) {
            if reads(entries[0]) {
                assert forall|i: int| 0 <= i < entries.len() implies reads(
                    #[trigger] entries[i],
                ) by {
                    if i > 0 {
                        assert(reads(rest[i - 1]));
                    }
                }
            }
        }
    }
}

/// A file is a roster exactly where every entry of it reads: one that does not refuses the whole.
pub proof fn a_roster_reads_whole_or_not_at_all(entries: Seq<(Seq<char>, Seq<Listed>)>)
    ensures
        entries_read(entries, Map::empty()) is Ok <==> forall|i: int|
            0 <= i < entries.len() ==> reads(#[trigger] entries[i]),
{
    lemma_reads(entries, Map::empty());
}

/// A roster that does not read is refused by its first fault: every key before it in its pool is
/// one, and the key it names is not hex of a key's length, or hex of no key.
pub proof fn the_first_bad_key_is_named(pool: Seq<u8>, listed: Seq<Listed>, from: int)
    requires
        0 <= from <= listed.len(),
    ensures
        keys_read(pool, listed, from) matches Err(fault) ==> {
            &&& fault matches RosterFault::NotHex { pool: of, at, fault: why } ==> of == pool && from
                <= at < listed.len() && hex::decoded_exact(
                listed[at].text,
                LEIOS_KEY_BYTES as int,
            ) == Err::<Seq<u8>, HexError>(why) && reads_up_to(listed, from, at)
            &&& fault matches RosterFault::NotAKey { pool: of, at, reason } ==> of == pool && from
                <= at < listed.len() && listed[at].refusal == Some(reason) && hex::decoded_exact(
                listed[at].text,
                LEIOS_KEY_BYTES as int,
            ) is Ok && reads_up_to(listed, from, at)
            &&& fault is NotHex || fault is NotAKey
        },
    decreases listed.len() - from,
{
    if from < listed.len() {
        the_first_bad_key_is_named(pool, listed, from + 1);
    }
}

/// Whether the keys from one place up to another are all keys.
pub open spec fn reads_up_to(listed: Seq<Listed>, from: int, to: int) -> bool {
    forall|j: int|
        from <= j < to ==> hex::decoded_exact(
            (#[trigger] listed[j]).text,
            LEIOS_KEY_BYTES as int,
        ) is Ok && listed[j].refusal is None
}

/// What was read out of a file is what is registered: where no two entries are of one pool, a key
/// is registered for a pool exactly where the entry of that pool lists it.
pub proof fn a_listed_key_is_registered(
    path: &str,
    file: &RosterFile,
    read_from: Option<Stamp>,
    roster: Roster,
    pool_id: PoolId,
    key: &LeiosPublicKey,
    given: bool,
)
    requires
        call_ensures(
            Roster::read_file,
            (path, file, read_from),
            Ok::<Roster, RosterError>(roster),
        ),
        call_ensures(Roster::registers, (&roster, pool_id, key), given),
        forall|i: int, j: int|
            0 <= i < j < file.pools@.len() ==> pool::pool_of_hex(
                (#[trigger] entry_views(file.pools@)[i]).0,
            ) != pool::pool_of_hex((#[trigger] entry_views(file.pools@)[j]).0),
    ensures
        given <==> exists|i: int, j: int|
            0 <= i < file.pools@.len() && lists(entry_views(file.pools@)[i], j, pool_id@, key@),
{
    let entries = entry_views(file.pools@);
    let held = roster.registered();
    assert(entries.len() == file.pools@.len());
    if given {
        assert(entries.len() > 0) by {
            if entries.len() == 0 {
                assert(held == Map::<Seq<u8>, Seq<Seq<u8>>>::empty());
            }
        }
        let last = entries.len() - 1;
        every_entry_is_kept(entries, last, pool_id@);
        let k = choose|k: int|
            0 <= k < entries.len() && pool::pool_of_hex((#[trigger] entries[k]).0) == Ok::<
                Seq<u8>,
                pool::PoolIdFault,
            >(pool_id@);
        assert forall|j: int| k < j < entries.len() implies pool::pool_of_hex(
            (#[trigger] entries[j]).0,
        ) != pool::pool_of_hex(entries[k].0) by {
            assert(entries[k] == entry_views(file.pools@)[k]);
        }
        every_entry_is_kept(entries, k, pool_id@);
        let j = choose|j: int| 0 <= j < held[pool_id@].len() && held[pool_id@][j] == key@;
        assert(hex::decoded_exact(entries[k].1[j].text, LEIOS_KEY_BYTES as int) == Ok::<
            Seq<u8>,
            HexError,
        >(held[pool_id@][j]));
        assert(lists(entries[k], j, pool_id@, key@));
    }
    if exists|i: int, j: int|
        0 <= i < file.pools@.len() && lists(entry_views(file.pools@)[i], j, pool_id@, key@) {
        let (i, j) = choose|i: int, j: int|
            0 <= i < file.pools@.len() && lists(entry_views(file.pools@)[i], j, pool_id@, key@);
        assert forall|n: int| i < n < entries.len() implies pool::pool_of_hex(
            (#[trigger] entries[n]).0,
        ) != pool::pool_of_hex(entries[i].0) by {
            assert(entries[i] == entry_views(file.pools@)[i]);
        }
        every_entry_is_kept(entries, i, pool_id@);
        assert(held[pool_id@][j] == key@);
    }
}

/// Whether an entry is of a pool and its key at a place spells this one.
pub open spec fn lists(
    entry: (Seq<char>, Seq<Listed>),
    at: int,
    pool: Seq<u8>,
    key: Seq<u8>,
) -> bool {
    &&& pool::pool_of_hex(entry.0) == Ok::<Seq<u8>, pool::PoolIdFault>(pool)
    &&& 0 <= at < entry.1.len()
    &&& hex::decoded_exact(entry.1[at].text, LEIOS_KEY_BYTES as int) == Ok::<Seq<u8>, HexError>(key)
}

/// A roster is up to date exactly where the file is known to be the one it was read from.
pub proof fn an_unknown_file_is_stale(roster: &Roster, stamp: Option<Stamp>, given: bool)
    requires
        call_ensures(Roster::is_stale, (roster, stamp), given),
    ensures
        !given <==> stamp is Some && roster.read_from == stamp,
{
}

}
