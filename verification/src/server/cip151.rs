//! What separates a pool's own CIP-151 registration from a stranger's claim about that pool: the
//! cold-key witness inside the label-867 metadata, checked here and nowhere else. `Registration`
//! has no other constructor, so nothing above this module can hand up a row that did not pass.

use vstd::prelude::*;

use crate::bytes;
use crate::outside;
use crate::wire::pool::{PoolId, POOL_HASH_BYTES};
use crate::wire::signing::VerifyingKey;

verus! {

/// The label a registration is posted under.
pub const METADATA_LABEL: u64 = 867;

/// CIP-151 is CIP-88 at version 2. Version 1 signs different bytes.
pub const VERSION: u64 = 2;

pub const KEY_VERSION: u64 = 0;

pub const KEY_PAYLOAD: u64 = 1;

pub const KEY_WITNESSES: u64 = 2;

/// Payload keys, in the numeric order CIP-151 fixes for hashing.
pub const KEY_SCOPE: u64 = 1;

pub const KEY_NONCE: u64 = 4;

pub const KEY_CALIDUS: u64 = 7;

/// Scope 1 is the stake-pool scope; its second element is the pool id.
pub const SCOPE_POOL: u64 = 1;

/// CIP-8 witness keys: the COSE_Key holding the public key, and the COSE_Sign1 holding the
/// signature.
pub const KEY_COSE_KEY: u64 = 1;

pub const KEY_COSE_SIGN1: u64 = 2;

/// COSE_Key label -2 is an OKP key's public half.
pub const COSE_KEY_X: i64 = -2;

/// What a COSE_Sign1 signature is over opens with.
pub const SIGNATURE1: &'static str = "Signature1";

/// One CIP-151 registration whose witness has been checked against the pool it names. The key is
/// the 32 bytes as registered: the witness proves the operator posted them, not that they are a
/// curve point.
#[derive(Debug, Clone, Copy, PartialEq, Eq)]
pub struct Registration {
    nonce: u64,
    key: [u8; 32],
}

/// Why a label-867 row is not this pool's registration. Every variant is a row to drop: anyone who
/// pays for a transaction can post one.
#[derive(Debug)]
pub enum RegistrationError {
    NotCbor(String),
    NotARegistration,
    WrongVersion,
    MalformedPayload,
    ScopesAnotherPool,
    Unwitnessed,
}

/// What a `RegistrationError` is, over plain values.
pub enum RegistrationFault {
    NotCbor(Seq<char>),
    NotARegistration,
    WrongVersion,
    MalformedPayload,
    ScopesAnotherPool,
    Unwitnessed,
}

impl View for RegistrationError {
    type V = RegistrationFault;

    open spec fn view(&self) -> RegistrationFault {
        match *self {
            RegistrationError::NotCbor(reason) => RegistrationFault::NotCbor(reason@),
            RegistrationError::NotARegistration => RegistrationFault::NotARegistration,
            RegistrationError::WrongVersion => RegistrationFault::WrongVersion,
            RegistrationError::MalformedPayload => RegistrationFault::MalformedPayload,
            RegistrationError::ScopesAnotherPool => RegistrationFault::ScopesAnotherPool,
            RegistrationError::Unwitnessed => RegistrationFault::Unwitnessed,
        }
    }
}

impl RegistrationFault {
    /// Why the row is dropped.
    pub open spec fn spelled(self) -> Seq<char> {
        match self {
            RegistrationFault::NotCbor(reason) => "not CBOR: "@ + reason,
            RegistrationFault::NotARegistration => "no 867 entry holding a registration map"@,
            RegistrationFault::WrongVersion => "registration version is not 2"@,
            RegistrationFault::MalformedPayload =>
                "payload is not a map holding a scope, a nonce and a Calidus key"@,
            RegistrationFault::ScopesAnotherPool => "payload scopes another pool"@,
            RegistrationFault::Unwitnessed =>
                "no witness both binds to the pool and signs the payload"@,
        }
    }
}

impl RegistrationError {
    /// Why the row is dropped.
    pub fn message(&self) -> (r: String)
        ensures
            r@ == self@.spelled(),
    {
        match self {
            RegistrationError::NotCbor(reason) => {
                let mut r = String::from_str("not CBOR: ");
                r.append(reason.as_str());
                r
            },
            RegistrationError::NotARegistration => String::from_str(
                "no 867 entry holding a registration map",
            ),
            RegistrationError::WrongVersion => String::from_str("registration version is not 2"),
            RegistrationError::MalformedPayload => String::from_str(
                "payload is not a map holding a scope, a nonce and a Calidus key",
            ),
            RegistrationError::ScopesAnotherPool => String::from_str("payload scopes another pool"),
            RegistrationError::Unwitnessed => String::from_str(
                "no witness both binds to the pool and signs the payload",
            ),
        }
    }
}

impl Registration {
    /// What a registration says: its nonce and its key.
    pub closed spec fn says(self) -> (u64, Seq<u8>) {
        (self.nonce, self.key@)
    }

    /// The nonce.
    pub fn nonce(&self) -> (r: u64)
        ensures
            r == self.says().0,
    {
        self.nonce
    }

    /// The key as registered.
    pub fn key(&self) -> (r: [u8; 32])
        ensures
            r@ == self.says().1,
    {
        self.key
    }
}

/// The value that the first of some pairs under an integer label holds.
pub open spec fn first_labelled(pairs: Seq<(Seq<u8>, Seq<u8>)>, label: int) -> Option<Seq<u8>>
    decreases pairs.len(),
{
    if pairs.len() == 0 {
        None
    } else if outside::cbor_integer_of(pairs[0].0) matches Some(n) && n == label {
        Some(pairs[0].1)
    } else {
        first_labelled(pairs.skip(1), label)
    }
}

/// The value a map item holds under an integer label, which COSE takes negative.
pub open spec fn held_under(item: Seq<u8>, label: int) -> Option<Seq<u8>> {
    match outside::cbor_map_of(item) {
        Some(pairs) => first_labelled(pairs, label),
        None => None,
    }
}

/// The whole number an item is, in 64 bits.
pub open spec fn unsigned_of(item: Seq<u8>) -> Option<u64> {
    match outside::cbor_integer_of(item) {
        Some(n) if 0 <= n <= u64::MAX => Some(n as u64),
        _ => None,
    }
}

/// The byte string of a size that an item is.
pub open spec fn sized_bytes_of(item: Seq<u8>, size: int) -> Option<Seq<u8>> {
    match outside::cbor_bytes_of(item) {
        Some(found) if found.len() == size => Some(found),
        _ => None,
    }
}

/// The pool id a `[1, h'..']` scope names, and nothing else: another scope is a registration about
/// something that is not a pool.
pub open spec fn scoped_pool(item: Seq<u8>) -> Option<Seq<u8>> {
    match outside::cbor_array_of(item) {
        Some(items) if items.len() == 2 && unsigned_of(items[0]) == Some(SCOPE_POOL) =>
            sized_bytes_of(items[1], POOL_HASH_BYTES as int),
        _ => None,
    }
}

/// `f` of what an optional item is.
pub open spec fn then_of<A>(item: Option<Seq<u8>>, f: spec_fn(Seq<u8>) -> Option<A>) -> Option<A> {
    match item {
        Some(item) => f(item),
        None => None,
    }
}

/// The CIP-8 witness over a payload hash: the public key, the signature, and the message it is
/// over.
pub open spec fn witness_of(witness: Seq<u8>, signed: Seq<u8>) -> Option<
    (Seq<u8>, Seq<u8>, Seq<u8>),
> {
    let key = then_of(
        then_of(
            held_under(witness, KEY_COSE_KEY as int),
            |item: Seq<u8>| held_under(item, COSE_KEY_X as int),
        ),
        |item: Seq<u8>| sized_bytes_of(item, 32),
    );
    let sign1 = then_of(
        held_under(witness, KEY_COSE_SIGN1 as int),
        |item: Seq<u8>| outside::cbor_array_of(item),
    );
    match (key, sign1) {
        (Some(key), Some(parts)) => if parts.len() != 4 {
            None
        } else {
            match (
                outside::cbor_bytes_of(parts[0]),
                outside::cbor_bytes_of(parts[2]),
                sized_bytes_of(parts[3], 64),
            ) {
                (Some(protected), Some(payload), Some(signature)) => if payload != signed {
                    None
                } else {
                    match outside::cbor_array_text(
                        SIGNATURE1@,
                        seq![protected, Seq::<u8>::empty(), signed],
                    ) {
                        Some(message) => Some((key, signature, message)),
                        None => None,
                    }
                },
                _ => None,
            }
        },
        _ => None,
    }
}

/// Whether one witness makes the registration the pool's: its key must hash to the pool id, and it
/// must have signed the payload hash.
pub open spec fn binds(witness: Seq<u8>, pool: Seq<u8>, signed: Seq<u8>) -> bool {
    witness_of(witness, signed) matches Some((key, signature, message)) && outside::ed25519_point(
        key,
    ) && outside::blake2b224(key) == pool && outside::ed25519_plain(key, message, signature)
}

/// What a payload says: the pool it scopes, its nonce and its Calidus key.
pub open spec fn payload_says(payload: Seq<u8>) -> Option<(Seq<u8>, u64, Seq<u8>)> {
    match (
        then_of(held_under(payload, KEY_SCOPE as int), |item: Seq<u8>| scoped_pool(item)),
        then_of(held_under(payload, KEY_NONCE as int), |item: Seq<u8>| unsigned_of(item)),
        then_of(held_under(payload, KEY_CALIDUS as int), |item: Seq<u8>| sized_bytes_of(item, 32)),
    ) {
        (Some(scope), Some(nonce), Some(key)) => Some((scope, nonce, key)),
        _ => None,
    }
}

/// The witnesses of a registration.
pub open spec fn witnesses_of(registration: Seq<u8>) -> Option<Seq<Seq<u8>>> {
    then_of(
        held_under(registration, KEY_WITNESSES as int),
        |item: Seq<u8>| outside::cbor_array_of(item),
    )
}

/// Whether some witness of a registration binds it to the pool.
pub open spec fn witnessed(registration: Seq<u8>, pool: Seq<u8>, signed: Seq<u8>) -> bool {
    witnesses_of(registration) is Some && exists|i: int|
        0 <= i < witnesses_of(registration)->0.len() && #[trigger] binds(
            witnesses_of(registration)->0[i],
            pool,
            signed,
        )
}

/// What a registration map makes of itself for a pool: its version, what its payload says, and
/// whether a witness binds it to the pool. The first thing that is wrong decides.
pub open spec fn judged(
    pool: Seq<u8>,
    version: Option<u64>,
    says: Option<(Seq<u8>, u64, Seq<u8>)>,
    witnessed: bool,
) -> Result<(u64, Seq<u8>), RegistrationFault> {
    if version != Some(VERSION) {
        Err(RegistrationFault::WrongVersion)
    } else {
        match says {
            None => Err(RegistrationFault::MalformedPayload),
            Some((scope, nonce, key)) => if scope != pool {
                Err(RegistrationFault::ScopesAnotherPool)
            } else if !witnessed {
                Err(RegistrationFault::Unwitnessed)
            } else {
                Ok((nonce, key))
            },
        }
    }
}

/// The registration a label-867 row makes for a pool, or the first thing that keeps it from making
/// one. What CIP-151 signs is the hash over the payload's encoding.
pub open spec fn registered(pool: Seq<u8>, blob: Seq<u8>) -> Result<
    (u64, Seq<u8>),
    RegistrationFault,
> {
    match outside::cbor_read(blob) {
        Err(reason) => Err(RegistrationFault::NotCbor(reason)),
        Ok(metadata) => match held_under(metadata, METADATA_LABEL as int) {
            None => Err(RegistrationFault::NotARegistration),
            Some(registration) => {
                let payload = held_under(registration, KEY_PAYLOAD as int);
                judged(
                    pool,
                    then_of(
                        held_under(registration, KEY_VERSION as int),
                        |item: Seq<u8>| unsigned_of(item),
                    ),
                    then_of(payload, |item: Seq<u8>| payload_says(item)),
                    payload is Some && witnessed(registration, pool, outside::blake2b256(payload->0)),
                )
            },
        },
    }
}

fn labelled(item: &[u8], label: i64) -> (r: Option<Vec<u8>>)
    ensures
        match r {
            Some(found) => held_under(item@, label as int) == Some(found@),
            None => held_under(item@, label as int) is None,
        },
{
    let pairs = match outside::cbor_map(item) {
        Some(pairs) => pairs,
        None => {
            return None;
        },
    };
    let ghost all = outside::pair_byte_views(pairs@);
    assert(all.skip(0) =~= all);
    for i in 0..pairs.len()
        invariant
            all == outside::pair_byte_views(pairs@),
            first_labelled(all, label as int) == first_labelled(all.skip(i as int), label as int),
            held_under(item@, label as int) == first_labelled(all, label as int),
    {
        let ghost rest = all.skip(i as int);
        assert(rest[0] == (pairs@[i as int].0@, pairs@[i as int].1@));
        assert(rest.skip(1) =~= all.skip(i + 1));
        match outside::cbor_integer(pairs[i].0.as_slice()) {
            Some(n) if n == label as i128 => {
                return Some(bytes::copied(pairs[i].1.as_slice()));
            },
            _ => {},
        }
    }
    None
}

/// The value a map item holds under an unsigned key.
fn entry(item: &[u8], key: u64) -> (r: Option<Vec<u8>>)
    requires
        key <= i64::MAX,
    ensures
        match r {
            Some(found) => held_under(item@, key as int) == Some(found@),
            None => held_under(item@, key as int) is None,
        },
{
    labelled(item, key as i64)
}

fn unsigned(item: &[u8]) -> (r: Option<u64>)
    ensures
        r == unsigned_of(item@),
{
    match outside::cbor_integer(item) {
        Some(n) if 0 <= n && n <= u64::MAX as i128 => Some(n as u64),
        _ => None,
    }
}

fn sized_bytes(item: &[u8], size: usize) -> (r: Option<Vec<u8>>)
    ensures
        match r {
            Some(found) => sized_bytes_of(item@, size as int) == Some(found@) && found@.len()
                == size,
            None => sized_bytes_of(item@, size as int) is None,
        },
{
    match outside::cbor_bytes(item) {
        Some(found) => {
            if found.len() == size {
                Some(found)
            } else {
                None
            }
        },
        None => None,
    }
}

fn pool_scope(item: &[u8]) -> (r: Option<Vec<u8>>)
    ensures
        match r {
            Some(found) => scoped_pool(item@) == Some(found@),
            None => scoped_pool(item@) is None,
        },
{
    match outside::cbor_array(item) {
        Some(items) => {
            assert(outside::byte_views(items@).len() == items@.len());
            if items.len() != 2 {
                return None;
            }
            assert(outside::byte_views(items@)[0] == items@[0]@);
            assert(outside::byte_views(items@)[1] == items@[1]@);
            match unsigned(items[0].as_slice()) {
                Some(kind) if kind == SCOPE_POOL => sized_bytes(
                    items[1].as_slice(),
                    POOL_HASH_BYTES,
                ),
                _ => None,
            }
        },
        None => None,
    }
}

/// The CIP-8 witness: a COSE_Key naming the public key and a COSE_Sign1 over the payload hash.
fn cose_witness(witness: &[u8], signed: &[u8; 32]) -> (r: Option<([u8; 32], [u8; 64], Vec<u8>)>)
    ensures
        match r {
            Some((key, signature, message)) => witness_of(witness@, signed@) == Some(
                (key@, signature@, message@),
            ),
            None => witness_of(witness@, signed@) is None,
        },
{
    let key = match entry(witness, KEY_COSE_KEY) {
        Some(cose_key) => match labelled(cose_key.as_slice(), COSE_KEY_X) {
            Some(x) => match sized_bytes(x.as_slice(), 32) {
                Some(key) => key,
                None => {
                    return None;
                },
            },
            None => {
                return None;
            },
        },
        None => {
            return None;
        },
    };
    let sign1 = match entry(witness, KEY_COSE_SIGN1) {
        Some(sign1) => match outside::cbor_array(sign1.as_slice()) {
            Some(parts) => parts,
            None => {
                return None;
            },
        },
        None => {
            return None;
        },
    };
    assert(outside::byte_views(sign1@).len() == sign1@.len());
    if sign1.len() != 4 {
        return None;
    }
    assert(outside::byte_views(sign1@)[0] == sign1@[0]@);
    assert(outside::byte_views(sign1@)[2] == sign1@[2]@);
    assert(outside::byte_views(sign1@)[3] == sign1@[3]@);
    let protected = match outside::cbor_bytes(sign1[0].as_slice()) {
        Some(protected) => protected,
        None => {
            return None;
        },
    };
    let payload = match outside::cbor_bytes(sign1[2].as_slice()) {
        Some(payload) => payload,
        None => {
            return None;
        },
    };
    let signature = match sized_bytes(sign1[3].as_slice(), 64) {
        Some(signature) => signature,
        None => {
            return None;
        },
    };
    if !bytes::same(payload.as_slice(), signed.as_slice()) {
        return None;
    }
    // Sig_structure = ["Signature1", protected, external_aad, payload], with an empty external_aad.
    let mut parts: Vec<Vec<u8>> = Vec::new();
    parts.push(protected);
    parts.push(Vec::new());
    parts.push(bytes::copied(signed.as_slice()));
    assert(outside::byte_views(parts@) =~= seq![protected@, Seq::<u8>::empty(), signed@]);
    match outside::cbor_encode_array(SIGNATURE1, parts.as_slice()) {
        Some(message) => Some(
            (bytes::fixed32(key.as_slice()), bytes::fixed64(signature.as_slice()), message),
        ),
        None => None,
    }
}

/// Whether one witness makes the registration the pool's.
fn speaks_for(witness: &[u8], pool_id: PoolId, signed: &[u8; 32]) -> (r: bool)
    ensures
        r == binds(witness@, pool_id@, signed@),
{
    let (key, signature, message) = match cose_witness(witness, signed) {
        Some(found) => found,
        None => {
            return false;
        },
    };
    let vkey = match VerifyingKey::from_bytes(&key) {
        Ok(vkey) => vkey,
        Err(_) => {
            return false;
        },
    };
    PoolId::from_cold_key(&vkey).same(&pool_id) && outside::ed25519_verify(
        &key,
        message.as_slice(),
        &signature,
    )
}

/// The registration a label-867 row makes for `pool_id`, or why it makes none.
///
/// A witness speaks for the pool only if its public key hashes to the pool id in the payload
/// scope. Without it, a self-signed registration naming any pool would grant that pool's upload
/// rights to whoever posted it.
pub fn verify(pool_id: PoolId, blob: &[u8]) -> (r: Result<Registration, RegistrationError>)
    ensures
        match r {
            Ok(registration) => registered(pool_id@, blob@) == Ok::<
                (u64, Seq<u8>),
                RegistrationFault,
            >(registration.says()),
            Err(error) => registered(pool_id@, blob@) == Err::<(u64, Seq<u8>), RegistrationFault>(
                error@,
            ),
        },
{
    let metadata = match outside::cbor_item(blob) {
        Ok(metadata) => metadata,
        Err(reason) => {
            return Err(RegistrationError::NotCbor(reason));
        },
    };
    let registration = match entry(metadata.as_slice(), METADATA_LABEL) {
        Some(registration) => registration,
        None => {
            return Err(RegistrationError::NotARegistration);
        },
    };
    let version = match entry(registration.as_slice(), KEY_VERSION) {
        Some(version) => unsigned(version.as_slice()),
        None => None,
    };
    let judgement = match entry(registration.as_slice(), KEY_PAYLOAD) {
        Some(payload) => {
            let says = payload_of(payload.as_slice());
            let signed = outside::blake2b_256(payload.as_slice());
            let witnessed = any_speaks_for(registration.as_slice(), pool_id, &signed);
            judge(pool_id, version, says, witnessed)
        },
        None => judge(pool_id, version, None, false),
    };
    match judgement {
        Ok((nonce, key)) => Ok(Registration { nonce, key }),
        Err(error) => Err(error),
    }
}

/// What a payload says, as plain values.
pub open spec fn says_view(says: Option<(Vec<u8>, u64, [u8; 32])>) -> Option<
    (Seq<u8>, u64, Seq<u8>),
> {
    match says {
        Some((scope, nonce, key)) => Some((scope@, nonce, key@)),
        None => None,
    }
}

fn payload_of(payload: &[u8]) -> (r: Option<(Vec<u8>, u64, [u8; 32])>)
    ensures
        says_view(r) == payload_says(payload@),
{
    let scope = match entry(payload, KEY_SCOPE) {
        Some(scope) => pool_scope(scope.as_slice()),
        None => None,
    };
    let nonce = match entry(payload, KEY_NONCE) {
        Some(nonce) => unsigned(nonce.as_slice()),
        None => None,
    };
    let key = match entry(payload, KEY_CALIDUS) {
        Some(key) => sized_bytes(key.as_slice(), 32),
        None => None,
    };
    match (scope, nonce, key) {
        (Some(scope), Some(nonce), Some(key)) => Some(
            (scope, nonce, bytes::fixed32(key.as_slice())),
        ),
        _ => None,
    }
}

/// What a registration map makes of itself: see `judged`. What its payload says is the pool it
/// scopes, its nonce and its Calidus key.
pub fn judge(
    pool_id: PoolId,
    version: Option<u64>,
    says: Option<(Vec<u8>, u64, [u8; 32])>,
    witnessed: bool,
) -> (r: Result<(u64, [u8; 32]), RegistrationError>)
    ensures
        match r {
            Ok((nonce, key)) => judged(pool_id@, version, says_view(says), witnessed) == Ok::<
                (u64, Seq<u8>),
                RegistrationFault,
            >((nonce, key@)),
            Err(error) => judged(pool_id@, version, says_view(says), witnessed) == Err::<
                (u64, Seq<u8>),
                RegistrationFault,
            >(error@),
        },
{
    match version {
        Some(version) if version == VERSION => {},
        _ => {
            return Err(RegistrationError::WrongVersion);
        },
    }
    match says {
        None => Err(RegistrationError::MalformedPayload),
        Some((scope, nonce, key)) => {
            if !bytes::same(scope.as_slice(), pool_id.hash.as_slice()) {
                Err(RegistrationError::ScopesAnotherPool)
            } else if !witnessed {
                Err(RegistrationError::Unwitnessed)
            } else {
                Ok((nonce, key))
            }
        },
    }
}

fn any_speaks_for(registration: &[u8], pool_id: PoolId, signed: &[u8; 32]) -> (r: bool)
    ensures
        r == witnessed(registration@, pool_id@, signed@),
{
    let witnesses = match entry(registration, KEY_WITNESSES) {
        Some(item) => match outside::cbor_array(item.as_slice()) {
            Some(witnesses) => witnesses,
            None => {
                return false;
            },
        },
        None => {
            return false;
        },
    };
    let ghost all = outside::byte_views(witnesses@);
    for i in 0..witnesses.len()
        invariant
            all == outside::byte_views(witnesses@),
            witnesses_of(registration@) == Some(all),
            forall|j: int| 0 <= j < i ==> !#[trigger] binds(all[j], pool_id@, signed@),
    {
        assert(all.len() == witnesses@.len());
        assert(all[i as int] == witnesses@[i as int]@);
        if speaks_for(witnesses[i].as_slice(), pool_id, signed) {
            assert(binds(witnesses_of(registration@)->0[i as int], pool_id@, signed@));
            return true;
        }
    }
    false
}

/// A row that a pool's cold key did not witness makes no registration for that pool: whatever nonce
/// and key a registration has, a key that hashes to the pool signed over the hash of a payload that
/// says them of the pool.
pub proof fn only_the_cold_key_registers(pool: Seq<u8>, blob: Seq<u8>)
    ensures
        registered(pool, blob) matches Ok((nonce, calidus)) ==> exists|
            payload: Seq<u8>,
            key: Seq<u8>,
            signature: Seq<u8>,
            protected: Seq<u8>,
        |
            #[trigger] signed_for(pool, payload, key, signature, protected) && payload_says(payload)
                == Some((pool, nonce, calidus)),
{
    if registered(pool, blob) is Ok {
        let registration = held_under(outside::cbor_read(blob)->Ok_0, METADATA_LABEL as int)->0;
        let payload = held_under(registration, KEY_PAYLOAD as int)->0;
        let signed = outside::blake2b256(payload);
        let witnesses = witnesses_of(registration)->0;
        let i = choose|i: int|
            0 <= i < witnesses.len() && #[trigger] binds(witnesses[i], pool, signed);
        let (key, signature, message) = witness_of(witnesses[i], signed)->0;
        let sign1 = then_of(
            held_under(witnesses[i], KEY_COSE_SIGN1 as int),
            |item: Seq<u8>| outside::cbor_array_of(item),
        )->0;
        let protected = outside::cbor_bytes_of(sign1[0])->0;
        assert(signed_for(pool, payload, key, signature, protected));
    }
}

/// Whether a key that hashes to a pool made a signature over the hash of a payload.
pub open spec fn signed_for(
    pool: Seq<u8>,
    payload: Seq<u8>,
    key: Seq<u8>,
    signature: Seq<u8>,
    protected: Seq<u8>,
) -> bool {
    &&& outside::blake2b224(key) == pool
    &&& outside::cbor_array_text(
        SIGNATURE1@,
        seq![protected, Seq::<u8>::empty(), outside::blake2b256(payload)],
    ) matches Some(message) && outside::ed25519_plain(key, message, signature)
}

/// A registration counts exactly where it is of the second version, scopes the pool it is read for
/// and is witnessed by it; it says the nonce and the key of its own payload.
pub proof fn a_registration_is_judged_by_its_parts(
    pool: Seq<u8>,
    version: Option<u64>,
    says: Option<(Seq<u8>, u64, Seq<u8>)>,
    witnessed: bool,
    nonce: u64,
    key: Seq<u8>,
)
    ensures
        judged(pool, version, says, witnessed) == Ok::<(u64, Seq<u8>), RegistrationFault>(
            (nonce, key),
        ) <==> version == Some(2u64) && says == Some((pool, nonce, key)) && witnessed,
        version != Some(2u64) ==> judged(pool, version, says, witnessed) == Err::<
            (u64, Seq<u8>),
            RegistrationFault,
        >(RegistrationFault::WrongVersion),
        version == Some(2u64) && says is Some && (says->0).0 != pool ==> judged(
            pool,
            version,
            says,
            witnessed,
        ) == Err::<(u64, Seq<u8>), RegistrationFault>(RegistrationFault::ScopesAnotherPool),
        version == Some(2u64) && says is Some && (says->0).0 == pool && !witnessed ==> judged(
            pool,
            version,
            says,
            witnessed,
        ) == Err::<(u64, Seq<u8>), RegistrationFault>(RegistrationFault::Unwitnessed),
{
}

/// A label is looked up from the front: what is found stands under the first pair of that label,
/// and nothing is found exactly where no pair has it.
pub proof fn the_first_of_a_label_is_found(pairs: Seq<(Seq<u8>, Seq<u8>)>, label: i128)
    ensures
        first_labelled(pairs, label as int) is None <==> forall|i: int|
            0 <= i < pairs.len() ==> outside::cbor_integer_of((#[trigger] pairs[i]).0) != Some(
                label,
            ),
        first_labelled(pairs, label as int) matches Some(item) ==> exists|n: int|
            0 <= n < pairs.len() && (#[trigger] pairs[n]).1 == item && outside::cbor_integer_of(
                pairs[n].0,
            ) == Some(label) && forall|i: int|
                0 <= i < n ==> outside::cbor_integer_of((#[trigger] pairs[i]).0) != Some(label),
    decreases pairs.len(),
{
    if pairs.len() > 0 && outside::cbor_integer_of(pairs[0].0) != Some(label) {
        let rest = pairs.skip(1);
        the_first_of_a_label_is_found(rest, label);
        assert(forall|i: int| 0 <= i < rest.len() ==> rest[i] == #[trigger] pairs[i + 1]);
        assert(first_labelled(pairs, label as int) == first_labelled(rest, label as int));
        if first_labelled(rest, label as int) is Some {
            let n = choose|n: int|
                0 <= n < rest.len() && (#[trigger] rest[n]).1 == first_labelled(rest, label as int)->0
                    && outside::cbor_integer_of(rest[n].0) == Some(label) && forall|i: int|
                    0 <= i < n ==> outside::cbor_integer_of((#[trigger] rest[i]).0) != Some(label);
            assert(pairs[n + 1] == rest[n]);
            assert forall|i: int| 0 <= i < n + 1 implies outside::cbor_integer_of(
                (#[trigger] pairs[i]).0,
            ) != Some(label) by {
                if i > 0 {
                    assert(rest[i - 1] == pairs[i]);
                }
            }
        } else {
            assert forall|i: int| 0 <= i < pairs.len() implies outside::cbor_integer_of(
                (#[trigger] pairs[i]).0,
            ) != Some(label) by {
                if i > 0 {
                    assert(rest[i - 1] == pairs[i]);
                }
            }
        }
    } else if pairs.len() > 0 {
        assert(pairs[0].1 == first_labelled(pairs, label as int)->0);
    }
}

/// A payload says something exactly where it has all three of its parts: the pool that it scopes,
/// under the first label and tagged as a pool; its nonce, under the fourth; and the key, under the
/// seventh.
pub proof fn a_payload_has_three_parts(
    payload: Seq<u8>,
    scope: Seq<u8>,
    parts: Seq<Seq<u8>>,
    nonce: Seq<u8>,
    key: Seq<u8>,
)
    requires
        held_under(payload, 1) == Some(scope),
        outside::cbor_array_of(scope) == Some(parts),
        held_under(payload, 4) == Some(nonce),
        held_under(payload, 7) == Some(key),
    ensures
        payload_says(payload) is Some <==> {
            &&& parts.len() == 2
            &&& outside::cbor_integer_of(parts[0]) == Some(1i128)
            &&& outside::cbor_bytes_of(parts[1]) is Some
            &&& outside::cbor_bytes_of(parts[1])->0.len() == 28
            &&& outside::cbor_integer_of(nonce) is Some
            &&& 0 <= outside::cbor_integer_of(nonce)->0 <= u64::MAX
            &&& outside::cbor_bytes_of(key) is Some
            &&& outside::cbor_bytes_of(key)->0.len() == 32
        },
        payload_says(payload) matches Some((pool, number, calidus)) ==> outside::cbor_bytes_of(
            parts[1],
        ) == Some(pool) && outside::cbor_integer_of(nonce) == Some(number as i128)
            && outside::cbor_bytes_of(key) == Some(calidus),
{
}

/// Without any of its three parts a payload says nothing.
pub proof fn a_payload_lacks_nothing(payload: Seq<u8>)
    requires
        held_under(payload, 1) is None || held_under(payload, 4) is None || held_under(
            payload,
            7,
        ) is None,
    ensures
        payload_says(payload) is None,
{
}

/// A witness is a key of thirty-two bytes and a signature of sixty-four, over the very payload that
/// is read and under the domain that such signatures are made in.
pub proof fn a_witness_signs_the_payload(witness: Seq<u8>, signed: Seq<u8>)
    ensures
        witness_of(witness, signed) matches Some((key, signature, message)) ==> key.len() == 32
            && signature.len() == 64 && exists|protected: Seq<u8>|
            outside::cbor_array_text(
                "Signature1"@,
                #[trigger] seq![protected, Seq::<u8>::empty(), signed],
            ) == Some(message),
{
}

/// A registration that is made right counts: of the second version, with a payload that scopes the
/// pool, and with any one witness among its witnesses that binds it.
pub proof fn a_right_registration_counts(
    pool: Seq<u8>,
    blob: Seq<u8>,
    metadata: Seq<u8>,
    registration: Seq<u8>,
    version: Seq<u8>,
    payload: Seq<u8>,
    nonce: u64,
    key: Seq<u8>,
    listed: Seq<u8>,
    witnesses: Seq<Seq<u8>>,
    i: int,
)
    requires
        outside::cbor_read(blob) == Ok::<Seq<u8>, Seq<char>>(metadata),
        held_under(metadata, 867) == Some(registration),
        held_under(registration, 0) == Some(version),
        outside::cbor_integer_of(version) == Some(2i128),
        held_under(registration, 1) == Some(payload),
        payload_says(payload) == Some((pool, nonce, key)),
        held_under(registration, 2) == Some(listed),
        outside::cbor_array_of(listed) == Some(witnesses),
        0 <= i < witnesses.len(),
        binds(witnesses[i], pool, outside::blake2b256(payload)),
    ensures
        registered(pool, blob) == Ok::<(u64, Seq<u8>), RegistrationFault>((nonce, key)),
{
    assert(witnesses_of(registration) == Some(witnesses));
    assert(binds(witnesses_of(registration)->0[i], pool, outside::blake2b256(payload)));
    assert(witnessed(registration, pool, outside::blake2b256(payload)));
    assert(unsigned_of(version) == Some(2u64));
}

}
