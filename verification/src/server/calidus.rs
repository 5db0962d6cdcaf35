//! Which Calidus key a pool's registrations name, and how long the server reuses that answer.
//! Finding the rows is the `Directory`'s job and checking their witnesses is `cip151`'s; choosing
//! among what passed is this module's.

use vstd::prelude::*;

use crate::bytes;
use crate::count::NonZeroU32;
use crate::outside;
use crate::server::cip151;
use crate::server::cip151::Registration;
use crate::table::Table;
use crate::text;
use crate::wire::moment::Moment;
use crate::wire::pool;
use crate::wire::pool::PoolId;
use crate::wire::signing::VerifyingKey;

verus! {

/// Why a pool's registrations could not be found.
#[derive(Debug)]
pub enum DirectoryError {
    Unavailable { pool_id: PoolId, reason: String },
}

impl DirectoryError {
    /// What an operator reads.
    pub open spec fn spelled(self) -> Seq<char> {
        match self {
            DirectoryError::Unavailable { pool_id, reason } => "cannot resolve pool "@
                + pool::bech32_of_pool(pool_id@) + "'s Calidus registrations: "@ + reason@,
        }
    }

    /// What an operator reads.
    pub fn message(&self) -> (r: String)
        ensures
            r@ == self.spelled(),
    {
        match self {
            DirectoryError::Unavailable { pool_id, reason } => {
                let mut r = String::from_str("cannot resolve pool ");
                r.append(pool_id.to_bech32().as_str());
                r.append("'s Calidus registrations: ");
                r.append(reason.as_str());
                r
            },
        }
    }
}

/// Where a pool's label-867 rows come from, as the bytes the chain carries. A directory that handed
/// up `Registration`s would be asserting a witness it never checked, and a test double could then
/// fabricate authority.
pub trait Directory {
    fn registrations(&self, pool_id: PoolId) -> Result<Vec<Vec<u8>>, DirectoryError>;
}

/// What a pool's witnessed registrations say. The refusals are separate because each is a different
/// thing for the operator to do.
#[derive(Debug, Clone, Copy, PartialEq, Eq)]
pub enum Resolution {
    /// The registered key: witnessed, highest nonce, and a point on the curve.
    Key([u8; 32]),
    NeverRegistered,
    Revoked,
    /// Two keys share the highest nonce, so the rows do not say which rotation is later.
    Contested { nonce: u64 },
    /// The highest nonce names 32 bytes that are not a point on the curve.
    NotAKey { nonce: u64 },
}

/// What a `Resolution` says, over plain values.
pub enum Named {
    Key(Seq<u8>),
    NeverRegistered,
    Revoked,
    Contested { nonce: u64 },
    NotAKey { nonce: u64 },
}

impl View for Resolution {
    type V = Named;

    open spec fn view(&self) -> Named {
        match *self {
            Resolution::Key(key) => Named::Key(key@),
            Resolution::NeverRegistered => Named::NeverRegistered,
            Resolution::Revoked => Named::Revoked,
            Resolution::Contested { nonce } => Named::Contested { nonce },
            Resolution::NotAKey { nonce } => Named::NotAKey { nonce },
        }
    }
}

impl Named {
    /// What an operator reads.
    pub open spec fn spelled(self) -> Seq<char> {
        match self {
            Named::Key(_) => "a Calidus key is registered"@,
            Named::NeverRegistered => "no Calidus key is registered"@,
            Named::Revoked => "the Calidus key was revoked"@,
            Named::Contested { nonce } => "two Calidus keys share nonce "@ + text::decimal(
                nonce as int,
            ),
            Named::NotAKey { nonce } => "the key registered at nonce "@ + text::decimal(
                nonce as int,
            ) + " is not on the curve"@,
        }
    }
}

impl Resolution {
    /// What an operator reads.
    pub fn message(&self) -> (r: String)
        ensures
            r@ == self@.spelled(),
    {
        match self {
            Resolution::Key(_) => String::from_str("a Calidus key is registered"),
            Resolution::NeverRegistered => String::from_str("no Calidus key is registered"),
            Resolution::Revoked => String::from_str("the Calidus key was revoked"),
            Resolution::Contested { nonce } => {
                let mut r = String::from_str("two Calidus keys share nonce ");
                r.append(text::decimal_of(*nonce as u128).as_str());
                r
            },
            Resolution::NotAKey { nonce } => {
                let mut r = String::from_str("the key registered at nonce ");
                r.append(text::decimal_of(*nonce as u128).as_str());
                r.append(" is not on the curve");
                r
            },
        }
    }
}

/// Whether a nonce is the highest that registrations have.
pub open spec fn is_newest(registrations: Seq<(u64, Seq<u8>)>, nonce: u64) -> bool {
    &&& exists|key: Seq<u8>| registrations.contains((nonce, key))
    &&& forall|n: u64, key: Seq<u8>| #[trigger] registrations.contains((n, key)) ==> n <= nonce
}

/// Whether two keys stand at one nonce.
pub open spec fn is_contested(registrations: Seq<(u64, Seq<u8>)>, nonce: u64) -> bool {
    exists|a: Seq<u8>, b: Seq<u8>|
        a != b && #[trigger] registrations.contains((nonce, a)) && #[trigger] registrations.contains(
            (nonce, b),
        )
}

/// What a key at a nonce that nothing contests says. All zeroes is how a key is revoked.
pub open spec fn said_by(nonce: u64, key: Seq<u8>) -> Named {
    if key == Seq::new(32, |i: int| 0u8) {
        Named::Revoked
    } else if outside::ed25519_point(key) {
        Named::Key(key)
    } else {
        Named::NotAKey { nonce }
    }
}

/// What registrations name. Highest nonce wins. Two different keys sharing that nonce name none:
/// the rows do not say which rotation is later, and a key that cannot be shown to be the pool's
/// must not speak for it.
pub open spec fn named_by(registrations: Seq<(u64, Seq<u8>)>) -> Named {
    if registrations.len() == 0 {
        Named::NeverRegistered
    } else {
        let nonce = choose|nonce: u64| is_newest(registrations, nonce);
        if is_contested(registrations, nonce) {
            Named::Contested { nonce }
        } else {
            said_by(nonce, choose|key: Seq<u8>| registrations.contains((nonce, key)))
        }
    }
}

/// What registrations say, each its nonce and key.
pub open spec fn sayings(registrations: Seq<Registration>) -> Seq<(u64, Seq<u8>)> {
    registrations.map_values(|r: Registration| r.says())
}

proof fn lemma_named(registrations: Seq<(u64, Seq<u8>)>, nonce: u64, key: Seq<u8>)
    requires
        is_newest(registrations, nonce),
        registrations.contains((nonce, key)),
    ensures
        named_by(registrations) == if is_contested(registrations, nonce) {
            Named::Contested { nonce }
        } else {
            said_by(nonce, key)
        },
{
    let chosen = choose|n: u64| is_newest(registrations, n);
    assert(is_newest(registrations, chosen));
    let other = choose|k: Seq<u8>| registrations.contains((chosen, k));
    assert(registrations.contains((chosen, other)));
    assert(chosen <= nonce && nonce <= chosen);
    if !is_contested(registrations, nonce) {
        assert(registrations.contains((nonce, other)));
        assert(other == key);
    }
}

proof fn lemma_has_newest(registrations: Seq<(u64, Seq<u8>)>) -> (found: (u64, Seq<u8>))
    requires
        registrations.len() > 0,
    ensures
        is_newest(registrations, found.0),
        registrations.contains(found),
    decreases registrations.len(),
{
    let last = registrations.last();
    assert(registrations[registrations.len() - 1] == last);
    assert(registrations.contains((last.0, last.1)));
    if registrations.len() == 1 {
        assert forall|n: u64, key: Seq<u8>| #[trigger] registrations.contains((n, key)) implies n
            <= last.0 by {}
        last
    } else {
        let rest = registrations.drop_last();
        let before = lemma_has_newest(rest);
        assert(registrations.contains(before)) by {
            let i = choose|i: int| 0 <= i < rest.len() && rest[i] == before;
            assert(registrations[i] == before);
        }
        assert(registrations.contains((before.0, before.1)));
        let found = if before.0 <= last.0 {
            last
        } else {
            before
        };
        assert forall|n: u64, key: Seq<u8>| #[trigger] registrations.contains((n, key)) implies n
            <= found.0 by {
            let i = choose|i: int| 0 <= i < registrations.len() && registrations[i] == (n, key);
            if i < rest.len() {
                assert(rest[i] == (n, key));
                assert(rest.contains((n, key)));
            }
        }
        found
    }
}

/// What registrations name does not rest on the order in which they are found, nor on how often one
/// of them is.
pub proof fn order_does_not_matter(a: Seq<(u64, Seq<u8>)>, b: Seq<(u64, Seq<u8>)>)
    requires
        forall|one: (u64, Seq<u8>)| a.contains(one) <==> b.contains(one),
    ensures
        named_by(a) == named_by(b),
{
    if a.len() == 0 {
        if b.len() > 0 {
            assert(b.contains(b[0]));
            assert(a.contains(b[0]));
        }
    } else {
        assert(a.contains(a[0]));
        assert(b.contains(a[0]));
        let found = lemma_has_newest(a);
        assert(a.contains((found.0, found.1)));
        assert(b.contains((found.0, found.1)));
        assert(is_newest(b, found.0)) by {
            assert forall|n: u64, key: Seq<u8>| #[trigger] b.contains((n, key)) implies n
                <= found.0 by {
                assert(a.contains((n, key)));
            }
        }
        lemma_named(a, found.0, found.1);
        lemma_named(b, found.0, found.1);
        assert(is_contested(a, found.0) ==> is_contested(b, found.0));
        if is_contested(b, found.0) {
            let (x, y) = choose|x: Seq<u8>, y: Seq<u8>|
                x != y && #[trigger] b.contains((found.0, x)) && #[trigger] b.contains(
                    (found.0, y),
                );
            assert(a.contains((found.0, x)) && a.contains((found.0, y)));
        }
    }
}

/// A registration above every other one decides alone.
pub proof fn rotation_replaces(registrations: Seq<(u64, Seq<u8>)>, nonce: u64, key: Seq<u8>)
    requires
        forall|i: int| 0 <= i < registrations.len() ==> (#[trigger] registrations[i]).0 < nonce,
    ensures
        named_by(registrations.push((nonce, key))) == said_by(nonce, key),
{
    let all = registrations.push((nonce, key));
    assert(all[registrations.len() as int] == (nonce, key));
    assert(all.contains((nonce, key)));
    assert forall|n: u64, k: Seq<u8>| #[trigger] all.contains((n, k)) implies n <= nonce && (n
        == nonce ==> k == key) by {
        let i = choose|i: int| 0 <= i < all.len() && all[i] == (n, k);
        if i < registrations.len() {
            assert(registrations[i].0 < nonce);
        }
    }
    assert(is_newest(all, nonce));
    assert(!is_contested(all, nonce));
    lemma_named(all, nonce, key);
}

/// A registration below another one changes nothing: an old row posted again revives no key.
pub proof fn replay_changes_nothing(registrations: Seq<(u64, Seq<u8>)>, nonce: u64, key: Seq<u8>)
    requires
        exists|i: int| 0 <= i < registrations.len() && (#[trigger] registrations[i]).0 > nonce,
    ensures
        named_by(registrations.push((nonce, key))) == named_by(registrations),
{
    let all = registrations.push((nonce, key));
    let above = choose|i: int|
        0 <= i < registrations.len() && (#[trigger] registrations[i]).0 > nonce;
    let found = lemma_has_newest(registrations);
    assert(registrations.contains((registrations[above].0, registrations[above].1)));
    assert(found.0 > nonce);
    assert forall|n: u64, k: Seq<u8>| #[trigger] all.contains((n, k)) implies registrations.contains(
        (n, k),
    ) || n == nonce by {
        let i = choose|i: int| 0 <= i < all.len() && all[i] == (n, k);
        if i < registrations.len() {
            assert(registrations[i] == (n, k));
        }
    }
    assert forall|n: u64, k: Seq<u8>| #[trigger] registrations.contains((n, k)) implies all.contains(
        (n, k),
    ) by {
        let i = choose|i: int| 0 <= i < registrations.len() && registrations[i] == (n, k);
        assert(all[i] == (n, k));
    }
    assert(registrations.contains((found.0, found.1)));
    assert(all.contains((found.0, found.1)));
    assert(is_newest(all, found.0));
    lemma_named(all, found.0, found.1);
    lemma_named(registrations, found.0, found.1);
    if is_contested(all, found.0) {
        let (x, y) = choose|x: Seq<u8>, y: Seq<u8>|
            x != y && #[trigger] all.contains((found.0, x)) && #[trigger] all.contains(
                (found.0, y),
            );
        assert(registrations.contains((found.0, x)) && registrations.contains((found.0, y)));
    }
    if is_contested(registrations, found.0) {
        let (x, y) = choose|x: Seq<u8>, y: Seq<u8>|
            x != y && #[trigger] registrations.contains((found.0, x))
                && #[trigger] registrations.contains((found.0, y));
        assert(all.contains((found.0, x)) && all.contains((found.0, y)));
    }
}

/// The key a pool's registrations currently name.
pub fn current(registrations: &[Registration]) -> (r: Resolution)
    ensures
        r@ == named_by(sayings(registrations@)),
{
    let ghost all = sayings(registrations@);
    if registrations.len() == 0 {
        return Resolution::NeverRegistered;
    }
    let mut newest: usize = 0;
    for i in 1..registrations.len()
        invariant
            all == sayings(registrations@),
            newest < registrations@.len(),
            forall|j: int| 0 <= j < i ==> (#[trigger] all[j]).0 <= all[newest as int].0,
    {
        if registrations[i].nonce() >= registrations[newest].nonce() {
            newest = i;
        }
    }
    let nonce: u64 = registrations[newest].nonce();
    let key = registrations[newest].key();
    assert(all[newest as int] == (nonce, key@));
    proof {
        assert(all.contains((nonce, key@)));
        assert forall|n: u64, k: Seq<u8>| #[trigger] all.contains((n, k)) implies n <= nonce by {
            let i = choose|i: int| 0 <= i < all.len() && all[i] == (n, k);
            assert(all[i].0 <= all[newest as int].0);
        }
        assert(is_newest(all, nonce));
        lemma_named(all, nonce, key@);
    }
    for i in 0..registrations.len()
        invariant
            all == sayings(registrations@),
            all.contains((nonce, key@)),
            named_by(all) == if is_contested(all, nonce) {
                Named::Contested { nonce }
            } else {
                said_by(nonce, key@)
            },
            forall|j: int| 0 <= j < i && (#[trigger] all[j]).0 == nonce ==> all[j].1 == key@,
    {
        assert(all[i as int] == registrations@[i as int].says());
        if registrations[i].nonce() == nonce && !bytes::same(
            registrations[i].key().as_slice(),
            key.as_slice(),
        ) {
            proof {
                let other = all[i as int].1;
                assert(all.contains((nonce, other)));
                assert(other != key@);
            }
            return Resolution::Contested { nonce };
        }
    }
    assert(!is_contested(all, nonce)) by {
        assert forall|k: Seq<u8>| #[trigger] all.contains((nonce, k)) implies k == key@ by {
            let i = choose|i: int| 0 <= i < all.len() && all[i] == (nonce, k);
            assert(all[i].1 == key@);
        }
    }
    let revoked: [u8; 32] = [0u8; 32];
    assert(revoked@ =~= Seq::new(32, |i: int| 0u8));
    if bytes::same(key.as_slice(), revoked.as_slice()) {
        return Resolution::Revoked;
    }
    match VerifyingKey::from_bytes(&key) {
        Ok(_) => Resolution::Key(key),
        Err(_) => Resolution::NotAKey { nonce },
    }
}

/// What the rows that are a pool's own say. A row whose witness does not check is a stranger's
/// transaction, so it is dropped rather than reported: anyone can post one, and naming them per
/// pool would let a stranger fill the log.
pub open spec fn own_rows(pool: Seq<u8>, rows: Seq<Seq<u8>>) -> Seq<(u64, Seq<u8>)>
    decreases rows.len(),
{
    if rows.len() == 0 {
        seq![]
    } else {
        let before = own_rows(pool, rows.drop_last());
        match cip151::registered(pool, rows.last()) {
            Ok(says) => before.push(says),
            Err(_) => before,
        }
    }
}

/// What a pool's rows name.
pub fn resolve(pool_id: PoolId, rows: &[Vec<u8>]) -> (r: Resolution)
    ensures
        r@ == named_by(own_rows(pool_id@, outside::byte_views(rows@))),
{
    let mut own: Vec<Registration> = Vec::new();
    let ghost all = outside::byte_views(rows@);
    assert(sayings(own@) =~= own_rows(pool_id@, all.take(0)));
    for i in 0..rows.len()
        invariant
            all == outside::byte_views(rows@),
            sayings(own@) == own_rows(pool_id@, all.take(i as int)),
    {
        let ghost before = own@;
        assert(all.take(i + 1).drop_last() =~= all.take(i as int));
        assert(all.take(i + 1).last() == rows@[i as int]@);
        match cip151::verify(pool_id, rows[i].as_slice()) {
            Ok(registration) => {
                own.push(registration);
                assert(sayings(own@) =~= sayings(before).push(registration.says()));
            },
            Err(_) => {},
        }
    }
    assert(all.take(rows@.len() as int) =~= all);
    current(own.as_slice())
}

/// A stranger's row changes nothing: what a pool's rows name is what its own rows name.
pub proof fn strangers_row_is_ignored(pool: Seq<u8>, rows: Seq<Seq<u8>>, blob: Seq<u8>)
    requires
        cip151::registered(pool, blob) is Err,
    ensures
        named_by(own_rows(pool, rows.push(blob))) == named_by(own_rows(pool, rows)),
{
    assert(rows.push(blob).drop_last() =~= rows);
}

/// An answer, and when it was found.
#[derive(Debug)]
pub struct Found {
    pub resolved_at: i128,
    pub resolution: Resolution,
}

/// Every pool's Calidus key as last resolved, for as long as the TTL says.
pub struct CalidusKeys<D: Directory> {
    directory: D,
    ttl: i128,
    resolved: Table<Found>,
}

/// What is known of the answer under a pool.
pub open spec fn known(resolved: Map<Seq<u8>, Found>, pool: Seq<u8>) -> Option<(int, Named)> {
    if resolved.contains_key(pool) {
        Some((resolved[pool].resolved_at as int, resolved[pool].resolution@))
    } else {
        None
    }
}

/// The answer that is still reused for a pool at an instant, if one is.
pub open spec fn reused(known: Option<(int, Named)>, now: int, ttl: int) -> Option<Named> {
    match known {
        Some((resolved_at, named)) => if now - resolved_at < ttl {
            Some(named)
        } else {
            None
        },
        None => None,
    }
}

/// Whether answers were found at instants the calendar has.
spec fn in_time(resolved: Map<Seq<u8>, Found>) -> bool {
    forall|pool: Seq<u8>| #[trigger]
        resolved.contains_key(pool) ==> crate::wire::moment::on_calendar(
            resolved[pool].resolved_at as int,
        )
}

impl<D: Directory> CalidusKeys<D> {
    #[verifier::type_invariant]
    spec fn well_formed(self) -> bool {
        in_time(self.resolved@)
    }

    /// What is known of a pool: when it was resolved, in nanoseconds since 1970, and to what.
    pub closed spec fn known(self, pool: Seq<u8>) -> Option<(int, Named)> {
        known(self.resolved@, pool)
    }

    /// How long an answer is reused, in nanoseconds.
    pub closed spec fn ttl(self) -> int {
        self.ttl as int
    }

    /// The directory that is asked for a pool's rows.
    pub closed spec fn asked_of(self) -> D {
        self.directory
    }

    /// Nothing resolved yet.
    pub fn new(directory: D, ttl_secs: NonZeroU32) -> (r: Self)
        ensures
            r.asked_of() == directory,
            r.ttl() == ttl_secs@ * 1_000_000_000,
            forall|pool: Seq<u8>| #[trigger] r.known(pool) is None,
    {
        CalidusKeys {
            directory,
            ttl: ttl_secs.get() as i128 * 1_000_000_000,
            resolved: Table::new(),
        }
    }

    /// The answer that is still reused for a pool, if one is.
    pub fn cached(&self, pool_id: PoolId, now: &Moment) -> (r: Option<Resolution>)
        ensures
            match r {
                Some(resolution) => reused(self.known(pool_id@), now.at(), self.ttl()) == Some(
                    resolution@,
                ),
                None => reused(self.known(pool_id@), now.at(), self.ttl()) is None,
            },
    {
        proof {
            use_type_invariant(self);
        }
        match self.resolved.get(pool_id.hash.as_slice()) {
            Some(found) => {
                if now.nanos() - found.resolved_at < self.ttl {
                    Some(found.resolution)
                } else {
                    None
                }
            },
            None => None,
        }
    }

    /// Take in what a pool's rows name, as found at an instant.
    pub fn note(&mut self, pool_id: PoolId, now: &Moment, rows: &[Vec<u8>]) -> (r: Resolution)
        ensures
            r@ == named_by(own_rows(pool_id@, outside::byte_views(rows@))),
            final(self).ttl() == old(self).ttl(),
            final(self).asked_of() == old(self).asked_of(),
            forall|pool: Seq<u8>| #[trigger]
                final(self).known(pool) == if pool == pool_id@ {
                    Some((now.at(), r@))
                } else {
                    old(self).known(pool)
                },
    {
        proof {
            use_type_invariant(&*self);
        }
        let resolution = resolve(pool_id, rows);
        let mut resolved: Table<Found> = Table::new();
        std::mem::swap(&mut resolved, &mut self.resolved);
        resolved.insert(
            pool_id.hash.as_slice(),
            Found { resolved_at: now.nanos(), resolution },
        );
        self.resolved = resolved;
        resolution
    }

    /// The pool's key, resolved again once the last answer is older than the TTL. The directory is
    /// asked for that pool then. Where it answers, what its rows name is both the answer and what
    /// is known from now on; where it fails, its error comes back and nothing known is lost.
    pub fn key_for(&mut self, pool_id: PoolId, now: &Moment) -> (r: Result<
        Resolution,
        DirectoryError,
    >)
        ensures
            final(self).ttl() == old(self).ttl(),
            final(self).asked_of() == old(self).asked_of(),
            match reused(old(self).known(pool_id@), now.at(), old(self).ttl()) {
                Some(named) => {
                    &&& r is Ok
                    &&& r->Ok_0@ == named
                    &&& forall|pool: Seq<u8>| #[trigger]
                        final(self).known(pool) == old(self).known(pool)
                },
                None => match r {
                    Ok(resolution) => {
                        &&& exists|rows: Vec<Vec<u8>>| #[trigger]
                            call_ensures(
                                D::registrations,
                                (&old(self).asked_of(), pool_id),
                                Ok::<Vec<Vec<u8>>, DirectoryError>(rows),
                            ) && resolution@ == named_by(
                                own_rows(pool_id@, outside::byte_views(rows@)),
                            )
                        &&& forall|pool: Seq<u8>| #[trigger]
                            final(self).known(pool) == if pool == pool_id@ {
                                Some((now.at(), resolution@))
                            } else {
                                old(self).known(pool)
                            }
                    },
                    Err(error) => {
                        &&& call_ensures(
                            D::registrations,
                            (&old(self).asked_of(), pool_id),
                            Err::<Vec<Vec<u8>>, DirectoryError>(error),
                        )
                        &&& forall|pool: Seq<u8>| #[trigger]
                            final(self).known(pool) == old(self).known(pool)
                    },
                },
            },
    {
        match self.cached(pool_id, now) {
            Some(resolution) => Ok(resolution),
            None => match self.directory.registrations(pool_id) {
                Ok(rows) => Ok(self.note(pool_id, now, rows.as_slice())),
                Err(error) => Err(error),
            },
        }
    }
}

/// The registration of the highest nonce is the one that counts, wherever it stands among the
/// others, so long as no other key was registered under that nonce.
pub proof fn the_highest_nonce_decides(
    registrations: Seq<(u64, Seq<u8>)>,
    nonce: u64,
    key: Seq<u8>,
)
    requires
        registrations.contains((nonce, key)),
        forall|n: u64, k: Seq<u8>| #[trigger]
            registrations.contains((n, k)) ==> n < nonce || (n == nonce && k == key),
    ensures
        named_by(registrations) == said_by(nonce, key),
{
    assert(is_newest(registrations, nonce));
    assert(!is_contested(registrations, nonce));
    lemma_named(registrations, nonce, key);
}

/// Two keys under the highest nonce contest it: neither is named.
pub proof fn two_keys_contest_a_nonce(
    registrations: Seq<(u64, Seq<u8>)>,
    nonce: u64,
    a: Seq<u8>,
    b: Seq<u8>,
)
    requires
        a != b,
        registrations.contains((nonce, a)),
        registrations.contains((nonce, b)),
        forall|n: u64, k: Seq<u8>| #[trigger] registrations.contains((n, k)) ==> n <= nonce,
    ensures
        named_by(registrations) == (Named::Contested { nonce }),
{
    assert(is_newest(registrations, nonce));
    assert(is_contested(registrations, nonce));
    lemma_named(registrations, nonce, a);
}

/// No registration names no key; one of zeros revokes; any other names its own key where it is one.
pub proof fn what_a_registration_says(nonce: u64, key: Seq<u8>, i: int)
    requires
        key.len() == 32,
    ensures
        named_by(Seq::empty()) == Named::NeverRegistered,
        (forall|j: int| 0 <= j < 32 ==> #[trigger] key[j] == 0) ==> said_by(nonce, key)
            == Named::Revoked,
        0 <= i < 32 && key[i] != 0 ==> said_by(nonce, key) == if outside::ed25519_point(key) {
            Named::Key(key)
        } else {
            Named::NotAKey { nonce }
        },
{
    let zeros = Seq::new(32, |i: int| 0u8);
    if forall|j: int| 0 <= j < 32 ==> #[trigger] key[j] == 0 {
        assert(key =~= zeros);
    }
    if 0 <= i < 32 && key[i] != 0 {
        assert(zeros[i] == 0);
    }
}

/// Every row that registers something for the pool counts, and no other row does.
pub proof fn every_own_row_counts(pool: Seq<u8>, rows: Seq<Seq<u8>>, says: (u64, Seq<u8>))
    ensures
        own_rows(pool, rows).contains(says) <==> exists|i: int|
            0 <= i < rows.len() && cip151::registered(pool, #[trigger] rows[i]) == Ok::<
                (u64, Seq<u8>),
                cip151::RegistrationFault,
            >(says),
    decreases rows.len(),
{
    if rows.len() > 0 {
        let before = rows.drop_last();
        every_own_row_counts(pool, before, says);
        assert(forall|i: int| 0 <= i < before.len() ==> before[i] == #[trigger] rows[i]);
        assert(rows[rows.len() - 1] == rows.last());
        let so_far = own_rows(pool, before);
        match cip151::registered(pool, rows.last()) {
            Ok(last) => {
                let all = so_far.push(last);
                assert(all[so_far.len() as int] == last);
                assert(all.contains(says) <==> so_far.contains(says) || last == says) by {
                    if so_far.contains(says) {
                        let i = choose|i: int| 0 <= i < so_far.len() && so_far[i] == says;
                        assert(all[i] == says);
                    }
                    if all.contains(says) {
                        let i = choose|i: int| 0 <= i < all.len() && all[i] == says;
                        if i < so_far.len() {
                            assert(so_far[i] == says);
                        }
                    }
                }
            },
            Err(_) => {},
        }
        if so_far.contains(says) {
            let i = choose|i: int|
                0 <= i < before.len() && cip151::registered(pool, #[trigger] before[i]) == Ok::<
                    (u64, Seq<u8>),
                    cip151::RegistrationFault,
                >(says);
            assert(cip151::registered(pool, rows[i]) == cip151::registered(pool, before[i]));
        }
        if own_rows(pool, rows).contains(says) && !so_far.contains(says) {
            assert(cip151::registered(pool, rows[rows.len() - 1]) == Ok::<
                (u64, Seq<u8>),
                cip151::RegistrationFault,
            >(says));
        }
        if exists|i: int|
            0 <= i < rows.len() && cip151::registered(pool, #[trigger] rows[i]) == Ok::<
                (u64, Seq<u8>),
                cip151::RegistrationFault,
            >(says) {
            let i = choose|i: int|
                0 <= i < rows.len() && cip151::registered(pool, #[trigger] rows[i]) == Ok::<
                    (u64, Seq<u8>),
                    cip151::RegistrationFault,
                >(says);
            if i < before.len() {
                assert(cip151::registered(pool, before[i]) == Ok::<
                    (u64, Seq<u8>),
                    cip151::RegistrationFault,
                >(says));
            }
        }
    }
}

/// What was found of a pool is used again while it is younger than the bound, and asked for anew
/// from the bound on.
pub proof fn a_finding_is_used_while_it_lasts(resolved_at: int, named: Named, age: int, ttl: int)
    ensures
        reused(Some((resolved_at, named)), resolved_at + age, ttl) == if age < ttl {
            Some(named)
        } else {
            None
        },
        reused(None, resolved_at, ttl) is None,
{
}

}
