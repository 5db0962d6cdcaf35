//! The key and signature beside a submission, and what they say of whose it is.

use vstd::prelude::*;

use crate::bytes;
use crate::hex;
use crate::outside;
use crate::text;
use crate::wire::pool::PoolId;
use crate::wire::signing::{Signature, VerifyingKey};

verus! {

/// The header that carries the verification key.
pub const HEADER_VKEY: &'static str = "x-metsuke-vkey";

/// The header that carries the signature.
pub const HEADER_SIGNATURE: &'static str = "x-metsuke-signature";

/// The header in which a submission claims its pool.
pub const HEADER_POOL: &'static str = "x-metsuke-pool";

/// How many bytes a cold key and its signature have.
pub const COLD_KEY_BYTES: usize = 32;

pub const COLD_SIGNATURE_BYTES: usize = 64;

/// How many bytes a Leios key and its signature have.
pub const LEIOS_KEY_BYTES: usize = 96;

pub const LEIOS_SIGNATURE_BYTES: usize = 48;

/// A Leios voting key. It hashes to no pool.
#[derive(Debug, PartialEq, Eq)]
pub struct LeiosPublicKey {
    pub bytes: Vec<u8>,
}

/// A key and the signature it made, as they travel beside a submission.
#[derive(Debug)]
pub enum Attestation {
    /// A pool's cold key, which names its pool by itself.
    ColdKey { vkey: VerifyingKey, signature: Signature },
    /// A Leios key, which names none.
    LeiosKey { key: LeiosPublicKey, vote: Vec<u8> },
}

/// What an attestation is, over plain bytes.
pub enum Claim {
    Cold { key: Seq<u8>, signature: Seq<u8> },
    Leios { key: Seq<u8>, signature: Seq<u8> },
}

/// Why two headers make no attestation.
#[derive(Debug)]
pub enum HeaderError {
    Missing { header: &'static str },
    NotHex { header: &'static str },
    WrongLength { header: &'static str, found: usize, expected: usize },
    Vkey { reason: String },
}

/// What a `HeaderError` is, over plain values.
pub enum HeaderFault {
    Missing { header: Seq<char> },
    NotHex { header: Seq<char> },
    WrongLength { header: Seq<char>, found: int, expected: int },
    Vkey { reason: Seq<char> },
}

impl View for LeiosPublicKey {
    type V = Seq<u8>;

    open spec fn view(&self) -> Seq<u8> {
        self.bytes@
    }
}

impl View for Attestation {
    type V = Claim;

    open spec fn view(&self) -> Claim {
        match *self {
            Attestation::ColdKey { vkey, signature } => Claim::Cold {
                key: vkey@,
                signature: signature@,
            },
            Attestation::LeiosKey { key, vote } => Claim::Leios { key: key@, signature: vote@ },
        }
    }
}

impl View for HeaderError {
    type V = HeaderFault;

    open spec fn view(&self) -> HeaderFault {
        match *self {
            HeaderError::Missing { header } => HeaderFault::Missing { header: header@ },
            HeaderError::NotHex { header } => HeaderFault::NotHex { header: header@ },
            HeaderError::WrongLength { header, found, expected } => HeaderFault::WrongLength {
                header: header@,
                found: found as int,
                expected: expected as int,
            },
            HeaderError::Vkey { reason } => HeaderFault::Vkey { reason: reason@ },
        }
    }
}

impl HeaderFault {
    /// What a client is told.
    pub open spec fn spelled(self) -> Seq<char> {
        match self {
            HeaderFault::Missing { header } => header + " header is missing"@,
            HeaderFault::NotHex { header } => header + " is not hex"@,
            HeaderFault::WrongLength { header, found, expected } => header + " decodes to "@
                + text::decimal(found) + " bytes, expected "@ + text::decimal(expected),
            HeaderFault::Vkey { reason } => HEADER_VKEY@
                + " is not an Ed25519 verification key: "@ + reason,
        }
    }
}

impl HeaderError {
    /// What a client is told.
    pub fn message(&self) -> (r: String)
        ensures
            r@ == self@.spelled(),
    {
        match self {
            HeaderError::Missing { header } => {
                let mut r = String::from_str(header);
                r.append(" header is missing");
                r
            },
            HeaderError::NotHex { header } => {
                let mut r = String::from_str(header);
                r.append(" is not hex");
                r
            },
            HeaderError::WrongLength { header, found, expected } => {
                let mut r = String::from_str(header);
                r.append(" decodes to ");
                r.append(text::decimal_of(*found as u128).as_str());
                r.append(" bytes, expected ");
                r.append(text::decimal_of(*expected as u128).as_str());
                r
            },
            HeaderError::Vkey { reason } => {
                let mut r = String::from_str(HEADER_VKEY);
                r.append(" is not an Ed25519 verification key: ");
                r.append(reason.as_str());
                r
            },
        }
    }
}

/// The bytes a header spells.
pub open spec fn header_bytes(value: Option<Seq<char>>, header: Seq<char>) -> Result<
    Seq<u8>,
    HeaderFault,
> {
    match value {
        None => Err(HeaderFault::Missing { header }),
        Some(value) => match hex::decoded(value) {
            None => Err(HeaderFault::NotHex { header }),
            Some(found) => Ok(found),
        },
    }
}

/// The bytes a header spells, where there are `expected` of them.
pub open spec fn header_exact(
    value: Option<Seq<char>>,
    header: Seq<char>,
    expected: int,
) -> Result<Seq<u8>, HeaderFault> {
    match header_bytes(value, header) {
        Err(fault) => Err(fault),
        Ok(found) => if found.len() != expected {
            Err(HeaderFault::WrongLength { header, found: found.len() as int, expected })
        } else {
            Ok(found)
        },
    }
}

/// What two headers claim: a cold key where the key header has the size of one, a Leios key where
/// it has the size of that, each with a signature of its own size.
pub open spec fn claimed(vkey: Option<Seq<char>>, signature: Option<Seq<char>>) -> Result<
    Claim,
    HeaderFault,
> {
    match header_bytes(vkey, HEADER_VKEY@) {
        Err(fault) => Err(fault),
        Ok(key) => if key.len() == LEIOS_KEY_BYTES {
            match header_exact(signature, HEADER_SIGNATURE@, LEIOS_SIGNATURE_BYTES as int) {
                Err(fault) => Err(fault),
                Ok(signature) => Ok(Claim::Leios { key, signature }),
            }
        } else if key.len() != COLD_KEY_BYTES {
            Err(
                HeaderFault::WrongLength {
                    header: HEADER_VKEY@,
                    found: key.len() as int,
                    expected: COLD_KEY_BYTES as int,
                },
            )
        } else {
            match header_exact(signature, HEADER_SIGNATURE@, COLD_SIGNATURE_BYTES as int) {
                Err(fault) => Err(fault),
                Ok(signature) => match outside::ed25519_refusal(key) {
                    Some(reason) => Err(HeaderFault::Vkey { reason }),
                    None => Ok(Claim::Cold { key, signature }),
                },
            }
        },
    }
}

impl Claim {
    /// Whether the signature stands over a message. `leios_stands` is what a Leios verifier
    /// answered; a cold key's signature is checked here.
    pub open spec fn stands(self, message: Seq<u8>, leios_stands: bool) -> bool {
        match self {
            Claim::Cold { key, signature } => outside::ed25519_strict(key, message, signature),
            Claim::Leios { .. } => leios_stands,
        }
    }

    /// The pool the key names by itself, which only a cold key does.
    pub open spec fn names(self) -> Option<Seq<u8>> {
        match self {
            Claim::Cold { key, .. } => Some(outside::blake2b224(key)),
            Claim::Leios { .. } => None,
        }
    }
}

/// The bytes a header spells.
pub(crate) fn decode_hex(value: Option<&str>, header: &'static str) -> (r: Result<
    Vec<u8>,
    HeaderError,
>)
    ensures
        match r {
            Ok(found) => header_bytes(text::view_of_str(value), header@) == Ok::<
                Seq<u8>,
                HeaderFault,
            >(found@),
            Err(error) => header_bytes(text::view_of_str(value), header@) == Err::<
                Seq<u8>,
                HeaderFault,
            >(error@),
        },
{
    match value {
        None => Err(HeaderError::Missing { header }),
        Some(value) => match hex::decode_bytes(value) {
            Ok(found) => Ok(found),
            Err(_) => Err(HeaderError::NotHex { header }),
        },
    }
}

/// The bytes a header spells, where there are `expected` of them.
pub(crate) fn decode_hex_exact(value: Option<&str>, header: &'static str, expected: usize) -> (r:
    Result<Vec<u8>, HeaderError>)
    ensures
        match r {
            Ok(found) => header_exact(text::view_of_str(value), header@, expected as int) == Ok::<
                Seq<u8>,
                HeaderFault,
            >(found@) && found@.len() == expected,
            Err(error) => header_exact(text::view_of_str(value), header@, expected as int) == Err::<
                Seq<u8>,
                HeaderFault,
            >(error@),
        },
{
    let found = decode_hex(value, header)?;
    if found.len() != expected {
        return Err(HeaderError::WrongLength { header, found: found.len(), expected });
    }
    Ok(found)
}

impl Attestation {
    /// What two headers claim.
    pub fn decode(vkey: Option<&str>, signature: Option<&str>) -> (r: Result<
        Attestation,
        HeaderError,
    >)
        ensures
            match r {
                Ok(attestation) => claimed(text::view_of_str(vkey), text::view_of_str(signature))
                    == Ok::<Claim, HeaderFault>(attestation@),
                Err(error) => claimed(text::view_of_str(vkey), text::view_of_str(signature))
                    == Err::<Claim, HeaderFault>(error@),
            },
    {
        let key = decode_hex(vkey, HEADER_VKEY)?;
        if key.len() == LEIOS_KEY_BYTES {
            let vote = decode_hex_exact(signature, HEADER_SIGNATURE, LEIOS_SIGNATURE_BYTES)?;
            return Ok(Attestation::LeiosKey { key: LeiosPublicKey { bytes: key }, vote });
        }
        if key.len() != COLD_KEY_BYTES {
            return Err(
                HeaderError::WrongLength {
                    header: HEADER_VKEY,
                    found: key.len(),
                    expected: COLD_KEY_BYTES,
                },
            );
        }
        let signature = decode_hex_exact(signature, HEADER_SIGNATURE, COLD_SIGNATURE_BYTES)?;
        match VerifyingKey::from_bytes(&bytes::fixed32(key.as_slice())) {
            Err(reason) => Err(HeaderError::Vkey { reason }),
            Ok(vkey) => Ok(
                Attestation::ColdKey {
                    vkey,
                    signature: Signature::from_bytes(&bytes::fixed64(signature.as_slice())),
                },
            ),
        }
    }

    /// What two headers claim, or nothing where they make no claim.
    pub fn from_headers(vkey: Option<&str>, signature: Option<&str>) -> (r: Option<Attestation>)
        ensures
            match r {
                Some(attestation) => claimed(
                    text::view_of_str(vkey),
                    text::view_of_str(signature),
                ) == Ok::<Claim, HeaderFault>(attestation@),
                None => claimed(text::view_of_str(vkey), text::view_of_str(signature)) is Err,
            },
    {
        match Attestation::decode(vkey, signature) {
            Ok(attestation) => Some(attestation),
            Err(_) => None,
        }
    }

    /// Whether the signature stands over `message`. `leios_stands` is what a Leios verifier
    /// answered for the key and signature held here; a cold key asks no one else.
    pub fn verifies(&self, message: &[u8], leios_stands: bool) -> (r: bool)
        ensures
            r == self@.stands(message@, leios_stands),
    {
        match self {
            Attestation::ColdKey { vkey, signature } => vkey.verify_strict(message, signature),
            Attestation::LeiosKey { .. } => leios_stands,
        }
    }

    /// The pool the key names by itself.
    pub fn attributes(&self) -> (r: Option<PoolId>)
        ensures
            match r {
                Some(pool) => self@.names() == Some(pool@),
                None => self@.names() is None,
            },
    {
        match self {
            Attestation::ColdKey { vkey, .. } => Some(PoolId::from_cold_key(vkey)),
            Attestation::LeiosKey { .. } => None,
        }
    }
}

impl LeiosPublicKey {
    /// Whether two keys are the same bytes.
    pub fn same(&self, other: &LeiosPublicKey) -> (r: bool)
        ensures
            r == (self@ == other@),
    {
        bytes::same(self.bytes.as_slice(), other.bytes.as_slice())
    }
}

impl Clone for Attestation {
    fn clone(&self) -> (r: Self)
        ensures
            r@ == self@,
    {
        match self {
            Attestation::ColdKey { vkey, signature } => Attestation::ColdKey {
                vkey: *vkey,
                signature: *signature,
            },
            Attestation::LeiosKey { key, vote } => Attestation::LeiosKey {
                key: LeiosPublicKey { bytes: bytes::copied(key.bytes.as_slice()) },
                vote: bytes::copied(vote.as_slice()),
            },
        }
    }
}

/// The length of the key decides which key it is, and each takes a signature of its own length: no
/// other pair of headers makes a claim, and a claim holds the bytes that the headers spell.
pub proof fn the_length_of_the_key_decides(key: Seq<u8>, signature: Seq<u8>)
    ensures
        ({
            let given = claimed(Some(hex::encoded(key)), Some(hex::encoded(signature)));
            &&& given == Ok::<Claim, HeaderFault>(Claim::Cold { key, signature }) <==> key.len()
                == 32 && signature.len() == 64 && outside::ed25519_refusal(key) is None
            &&& given == Ok::<Claim, HeaderFault>(Claim::Leios { key, signature }) <==> key.len()
                == 96 && signature.len() == 48
            &&& given is Ok ==> given->Ok_0 == (Claim::Cold { key, signature }) || given->Ok_0 == (
            Claim::Leios { key, signature })
        }),
{
    hex::decode_inverts_encode(key);
    hex::decode_inverts_encode(signature);
}

/// Without either header there is no claim, and the one that is missing is named.
pub proof fn both_headers_are_needed(key: Seq<u8>, signature: Option<Seq<char>>)
    requires
        key.len() == 32 || key.len() == 96,
    ensures
        claimed(None, signature) == Err::<Claim, HeaderFault>(
            HeaderFault::Missing { header: HEADER_VKEY@ },
        ),
        claimed(Some(hex::encoded(key)), None) == Err::<Claim, HeaderFault>(
            HeaderFault::Missing { header: HEADER_SIGNATURE@ },
        ),
{
    hex::decode_inverts_encode(key);
}

/// A cold claim stands by its own key, message and signature, whatever is said of Leios keys; a
/// Leios claim stands by what was found of it alone, and names no pool.
pub proof fn each_claim_stands_by_its_own_key(
    key: Seq<u8>,
    signature: Seq<u8>,
    message: Seq<u8>,
    leios_stands: bool,
)
    ensures
        (Claim::Cold { key, signature }).stands(message, leios_stands) == outside::ed25519_strict(
            key,
            message,
            signature,
        ),
        (Claim::Leios { key, signature }).stands(message, leios_stands) == leios_stands,
        (Claim::Cold { key, signature }).names() == Some(outside::blake2b224(key)),
        (Claim::Leios { key, signature }).names() is None,
{
}

}
