//! Who a submission is from. One answer per scheme and both are checked, never believed: a cold
//! key hashes to the pool, so the pool is derived and a claim beside it has to agree; a Leios key
//! hashes to nothing, so the claim is all there is and it stands only where the key roster lists
//! that key for that pool and the signature stands over the bytes.

use vstd::prelude::*;

use crate::server::roster::Roster;
use crate::text;
use crate::wire::attestation;
use crate::wire::attestation::{Attestation, HeaderError, HEADER_POOL};
use crate::wire::pool;
use crate::wire::pool::{PoolId, PoolIdError};

verus! {

/// An attestation and the pool it is for, before the bytes are in hand.
#[derive(Debug)]
pub struct Attributed {
    pub attestation: Attestation,
    pub pool_id: PoolId,
}

/// An upload as it was signed: the key it presents, the signature, the pool both are for, and the
/// bytes they are over.
#[derive(Debug)]
pub struct Signed<'a> {
    pub attestation: Attestation,
    pub pool_id: PoolId,
    /// The body as sent, byte for byte as received.
    pub wire_bytes: &'a [u8],
}

/// Why three headers attribute a submission to no pool.
#[derive(Debug)]
pub enum AttributionError {
    Attestation(HeaderError),
    NotAPoolId(PoolIdError),
    NotItsPool { claimed: PoolId, derived: PoolId },
    Unnamed,
}

/// What an `AttributionError` is, over plain values.
pub enum AttributionFault {
    Attestation(attestation::HeaderFault),
    NotAPoolId(pool::PoolIdFault),
    NotItsPool { claimed: Seq<u8>, derived: Seq<u8> },
    Unnamed,
}

/// Why a key does not speak for the pool the submission is filed under.
#[derive(Debug, Clone, Copy)]
pub enum Unauthorised {
    NoRoster,
    Unregistered { pool_id: PoolId },
}

/// What an `Unauthorised` is, over plain values.
pub enum AuthorityFault {
    NoRoster,
    Unregistered { pool: Seq<u8> },
}

impl View for AttributionError {
    type V = AttributionFault;

    open spec fn view(&self) -> AttributionFault {
        match *self {
            AttributionError::Attestation(error) => AttributionFault::Attestation(error@),
            AttributionError::NotAPoolId(error) => AttributionFault::NotAPoolId(error.fault()),
            AttributionError::NotItsPool { claimed, derived } => AttributionFault::NotItsPool {
                claimed: claimed@,
                derived: derived@,
            },
            AttributionError::Unnamed => AttributionFault::Unnamed,
        }
    }
}

impl View for Unauthorised {
    type V = AuthorityFault;

    open spec fn view(&self) -> AuthorityFault {
        match *self {
            Unauthorised::NoRoster => AuthorityFault::NoRoster,
            Unauthorised::Unregistered { pool_id } => AuthorityFault::Unregistered {
                pool: pool_id@,
            },
        }
    }
}

impl AttributionFault {
    /// What a client is told.
    pub open spec fn spelled(self) -> Seq<char> {
        match self {
            AttributionFault::Attestation(fault) => fault.spelled(),
            AttributionFault::NotAPoolId(fault) => HEADER_POOL@ + " is not a pool id: "@
                + pool::pool_fault_text(fault),
            AttributionFault::NotItsPool { claimed, derived } => HEADER_POOL@ + " names "@
                + pool::bech32_of_pool(claimed) + ", and this cold key speaks for "@
                + pool::bech32_of_pool(derived)
                + ": a pool id is its cold verification key's hash, so the two have to agree"@,
            AttributionFault::Unnamed =>
                "a Leios key names no pool, so a submission signed by one has to say which pool it is from in "@
                + HEADER_POOL@,
        }
    }
}

impl AttributionError {
    /// What a client is told.
    pub fn message(&self) -> (r: String)
        ensures
            r@ == self@.spelled(),
    {
        match self {
            AttributionError::Attestation(error) => error.message(),
            AttributionError::NotAPoolId(error) => {
                let mut r = String::from_str(HEADER_POOL);
                r.append(" is not a pool id: ");
                r.append(error.message().as_str());
                r
            },
            AttributionError::NotItsPool { claimed, derived } => {
                let mut r = String::from_str(HEADER_POOL);
                r.append(" names ");
                r.append(claimed.to_bech32().as_str());
                r.append(", and this cold key speaks for ");
                r.append(derived.to_bech32().as_str());
                r.append(
                    ": a pool id is its cold verification key's hash, so the two have to agree",
                );
                r
            },
            AttributionError::Unnamed => {
                let mut r = String::from_str(
                    "a Leios key names no pool, so a submission signed by one has to say which pool it is from in ",
                );
                r.append(HEADER_POOL);
                r
            },
        }
    }
}

impl AuthorityFault {
    /// What a client is told.
    pub open spec fn spelled(self) -> Seq<char> {
        match self {
            AuthorityFault::NoRoster =>
                "this server accepts no Leios-key submissions: it has no key roster"@,
            AuthorityFault::Unregistered { pool } =>
                "the key roster lists no such Leios key for pool "@ + pool::bech32_of_pool(pool),
        }
    }
}

impl Unauthorised {
    /// What a client is told.
    pub fn message(&self) -> (r: String)
        ensures
            r@ == self@.spelled(),
    {
        match self {
            Unauthorised::NoRoster => String::from_str(
                "this server accepts no Leios-key submissions: it has no key roster",
            ),
            Unauthorised::Unregistered { pool_id } => {
                let mut r = String::from_str("the key roster lists no such Leios key for pool ");
                r.append(pool_id.to_bech32().as_str());
                r
            },
        }
    }
}

/// The pool a claim is for: derived where the key names one, and then what is claimed beside it
/// has to agree; what is claimed where it names none.
pub open spec fn attributed(
    claim: attestation::Claim,
    claimed: Option<Seq<u8>>,
) -> Result<Seq<u8>, AttributionFault> {
    match (claim.names(), claimed) {
        (Some(derived), None) => Ok(derived),
        (Some(derived), Some(claimed)) => if derived == claimed {
            Ok(derived)
        } else {
            Err(AttributionFault::NotItsPool { claimed, derived })
        },
        (None, Some(claimed)) => Ok(claimed),
        (None, None) => Err(AttributionFault::Unnamed),
    }
}

/// What three headers come to: a claim and the pool it is for.
pub open spec fn headers_read(
    vkey: Option<Seq<char>>,
    signature: Option<Seq<char>>,
    pool: Option<Seq<char>>,
) -> Result<(attestation::Claim, Seq<u8>), AttributionFault> {
    match attestation::claimed(vkey, signature) {
        Err(fault) => Err(AttributionFault::Attestation(fault)),
        Ok(claim) => {
            let claimed = match pool {
                None => Ok(None),
                Some(pool) => match pool::pool_of_bech32(pool) {
                    Ok(pool) => Ok(Some(pool)),
                    Err(fault) => Err(fault),
                },
            };
            match claimed {
                Err(fault) => Err(AttributionFault::NotAPoolId(fault)),
                Ok(claimed) => match attributed(claim, claimed) {
                    Err(fault) => Err(fault),
                    Ok(pool) => Ok((claim, pool)),
                },
            }
        },
    }
}

impl Attributed {
    /// The three headers an upload presents. The pool header is what a Leios key has instead of a
    /// derivation, and a second copy of the derivation under a cold key: optional there, and
    /// checked wherever it is sent.
    pub fn decode(vkey: Option<&str>, signature: Option<&str>, pool: Option<&str>) -> (r: Result<
        Attributed,
        AttributionError,
    >)
        ensures
            ({
                let read = headers_read(
                    text::view_of_str(vkey),
                    text::view_of_str(signature),
                    text::view_of_str(pool),
                );
                match r {
                    Ok(found) => read == Ok::<(attestation::Claim, Seq<u8>), AttributionFault>(
                        (found.attestation@, found.pool_id@),
                    ),
                    Err(error) => read == Err::<(attestation::Claim, Seq<u8>), AttributionFault>(
                        error@,
                    ),
                }
            }),
    {
        let attestation = match Attestation::decode(vkey, signature) {
            Ok(attestation) => attestation,
            Err(error) => {
                return Err(AttributionError::Attestation(error));
            },
        };
        let claimed = match pool {
            None => None,
            Some(pool) => match PoolId::from_bech32(pool) {
                Ok(pool) => Some(pool),
                Err(error) => {
                    return Err(AttributionError::NotAPoolId(error));
                },
            },
        };
        let pool_id = match (attestation.attributes(), claimed) {
            (Some(derived), None) => derived,
            (Some(derived), Some(claimed)) => {
                if !derived.same(&claimed) {
                    return Err(AttributionError::NotItsPool { claimed, derived });
                }
                derived
            },
            (None, Some(claimed)) => claimed,
            (None, None) => {
                return Err(AttributionError::Unnamed);
            },
        };
        Ok(Attributed { attestation, pool_id })
    }

    /// An object's attestation against the pool its key files it under.
    pub fn filed(attestation: Attestation, pool_id: PoolId) -> (r: Attributed)
        ensures
            r.attestation == attestation,
            r.pool_id == pool_id,
    {
        Attributed { attestation, pool_id }
    }

    /// Whose submission this is, as far as the headers go.
    pub fn pool_id(&self) -> (r: PoolId)
        ensures
            r == self.pool_id,
    {
        self.pool_id
    }

    /// The same attribution over the bytes it was presented with.
    pub fn over<'a>(&self, wire_bytes: &'a [u8]) -> (r: Signed<'a>)
        ensures
            r.attestation@ == self.attestation@,
            r.pool_id == self.pool_id,
            r.wire_bytes@ == wire_bytes@,
    {
        Signed { attestation: self.attestation.clone(), pool_id: self.pool_id, wire_bytes }
    }
}

/// What a roster says of a claim for a pool: a cold key speaks for its pool by arithmetic; a
/// Leios key does only where the roster says the chain registers it for this pool.
pub open spec fn authority_fault(
    claim: attestation::Claim,
    pool: Seq<u8>,
    roster: Option<Map<Seq<u8>, Seq<Seq<u8>>>>,
) -> Option<AuthorityFault> {
    match claim {
        attestation::Claim::Cold { .. } => None,
        attestation::Claim::Leios { key, .. } => match roster {
            None => Some(AuthorityFault::NoRoster),
            Some(registered) => if registered.contains_key(pool) && registered[pool].contains(key) {
                None
            } else {
                Some(AuthorityFault::Unregistered { pool })
            },
        },
    }
}

/// What an optional roster registers.
pub open spec fn registered_in(roster: Option<&Roster>) -> Option<Map<Seq<u8>, Seq<Seq<u8>>>> {
    match roster {
        Some(roster) => Some(roster.registered()),
        None => None,
    }
}

impl<'a> Signed<'a> {
    /// Whose submission this is. The one answer, so the pool the allowlist is checked against, the
    /// pool the limiter charges and the pool the object is filed under cannot come out three
    /// different pools.
    pub fn pool_id(&self) -> (r: PoolId)
        ensures
            r == self.pool_id,
    {
        self.pool_id
    }

    /// Whether this key may speak for this pool at all. Cheaper than `verifies` and independent of
    /// it, so it runs first.
    pub fn authorised(&self, roster: Option<&Roster>) -> (r: Result<(), Unauthorised>)
        ensures
            match r {
                Ok(()) => authority_fault(
                    self.attestation@,
                    self.pool_id@,
                    registered_in(roster),
                ) is None,
                Err(error) => authority_fault(
                    self.attestation@,
                    self.pool_id@,
                    registered_in(roster),
                ) == Some(error@),
            },
    {
        match &self.attestation {
            Attestation::ColdKey { .. } => Ok(()),
            Attestation::LeiosKey { key, .. } => match roster {
                None => Err(Unauthorised::NoRoster),
                Some(roster) => {
                    if roster.registers(self.pool_id, key) {
                        Ok(())
                    } else {
                        Err(Unauthorised::Unregistered { pool_id: self.pool_id })
                    }
                },
            },
        }
    }

    /// Whether the signature stands over the bytes as given. `leios_stands` is what a Leios
    /// verifier answered where a Leios key signed.
    pub fn verifies(&self, leios_stands: bool) -> (r: bool)
        ensures
            r == self.attestation@.stands(self.wire_bytes@, leios_stands),
    {
        self.attestation.verifies(self.wire_bytes, leios_stands)
    }
}

/// Under a cold key a submission is for the pool its key hashes to, whatever it claims.
pub proof fn cold_key_decides_the_pool(
    key: Seq<u8>,
    signature: Seq<u8>,
    claimed: Option<Seq<u8>>,
)
    ensures
        attributed(attestation::Claim::Cold { key, signature }, claimed) matches Ok(pool) ==> pool
            == crate::outside::blake2b224(key),
{
}

/// A Leios key speaks for no pool that the roster does not list it for.
pub proof fn leios_key_speaks_only_where_listed(
    key: Seq<u8>,
    signature: Seq<u8>,
    pool: Seq<u8>,
    roster: Option<Map<Seq<u8>, Seq<Seq<u8>>>>,
)
    ensures
        authority_fault(attestation::Claim::Leios { key, signature }, pool, roster) is None <==> (
        roster matches Some(registered) && registered.contains_key(pool)
            && registered[pool].contains(key)),
{
}

/// A cold key names its pool by itself, and a header that claims another is refused; under a Leios
/// key the header names the pool, and one has to.
pub proof fn who_names_the_pool(key: Seq<u8>, signature: Seq<u8>, pool: Seq<u8>)
    ensures
        ({
            let cold = attestation::Claim::Cold { key, signature };
            let leios = attestation::Claim::Leios { key, signature };
            let own = crate::outside::blake2b224(key);
            &&& attributed(cold, None) == Ok::<Seq<u8>, AttributionFault>(own)
            &&& attributed(cold, Some(own)) == Ok::<Seq<u8>, AttributionFault>(own)
            &&& pool != own ==> attributed(cold, Some(pool)) == Err::<Seq<u8>, AttributionFault>(
                AttributionFault::NotItsPool { claimed: pool, derived: own },
            )
            &&& attributed(leios, Some(pool)) == Ok::<Seq<u8>, AttributionFault>(pool)
            &&& attributed(leios, None) == Err::<Seq<u8>, AttributionFault>(
                AttributionFault::Unnamed,
            )
        }),
{
}

/// A cold key always may speak for its pool, with or without a roster.
pub proof fn a_cold_key_needs_no_roster(
    key: Seq<u8>,
    signature: Seq<u8>,
    pool: Seq<u8>,
    roster: Option<Map<Seq<u8>, Seq<Seq<u8>>>>,
)
    ensures
        authority_fault(attestation::Claim::Cold { key, signature }, pool, roster) is None,
{
}

/// The three headers read back: the claim that the first two spell, under the pool that the third
/// spells, or under the cold key's own where there is no third.
pub proof fn the_headers_read_back(key: Seq<u8>, signature: Seq<u8>, pool: Seq<u8>)
    requires
        pool::pool_of_bech32(pool::bech32_of_pool(pool)) == Ok::<Seq<u8>, pool::PoolIdFault>(pool),
    ensures
        ({
            let vkey = Some(crate::hex::encoded(key));
            let signed = Some(crate::hex::encoded(signature));
            let named = Some(pool::bech32_of_pool(pool));
            let own = crate::outside::blake2b224(key);
            &&& key.len() == 96 && signature.len() == 48 ==> headers_read(vkey, signed, named)
                == Ok::<(attestation::Claim, Seq<u8>), AttributionFault>(
                (attestation::Claim::Leios { key, signature }, pool),
            )
            &&& key.len() == 32 && signature.len() == 64 && crate::outside::ed25519_refusal(
                key,
            ) is None ==> headers_read(vkey, signed, None) == Ok::<
                (attestation::Claim, Seq<u8>),
                AttributionFault,
            >((attestation::Claim::Cold { key, signature }, own)) && (headers_read(
                vkey,
                signed,
                named,
            ) is Ok <==> pool == own)
        }),
{
    attestation::the_length_of_the_key_decides(key, signature);
}

/// A Leios key that may not speak is told why: there is no roster, or the roster does not list it
/// for the pool.
pub proof fn an_unlisted_key_is_told_why(
    key: Seq<u8>,
    signature: Seq<u8>,
    pool: Seq<u8>,
    registered: Map<Seq<u8>, Seq<Seq<u8>>>,
)
    ensures
        authority_fault(attestation::Claim::Leios { key, signature }, pool, None) == Some(
            AuthorityFault::NoRoster,
        ),
        !(registered.contains_key(pool) && registered[pool].contains(key)) ==> authority_fault(
            attestation::Claim::Leios { key, signature },
            pool,
            Some(registered),
        ) == Some(AuthorityFault::Unregistered { pool }),
{
}

}
