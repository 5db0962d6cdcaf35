//! Which stake pool a submission is from.

use vstd::prelude::*;

use crate::bytes;
use crate::hex;
use crate::hex::HexError;
use crate::outside;
use crate::text;
use crate::wire::signing::VerifyingKey;

verus! {

/// How many bytes a pool id has.
pub const POOL_HASH_BYTES: usize = 28;

/// A stake pool, by the hash of its cold verification key.
#[derive(Debug, Clone, Copy, PartialEq, Eq)]
pub struct PoolId {
    pub hash: [u8; 28],
}

/// Why a text names no pool.
#[derive(Debug)]
pub enum PoolIdError {
    /// Not bech32, or its checksum does not stand.
    NotBech32 { found: String },
    /// Bech32 of something other than a pool.
    Prefix { found: String },
    /// A hash of another size.
    Length { bytes: usize },
    /// Not the hexadecimal text of a hash.
    NotHex,
}

/// What each `PoolIdError` says, over plain texts.
pub enum PoolIdFault {
    NotBech32 { found: Seq<char> },
    Prefix { found: Seq<char> },
    Length { bytes: int },
    NotHex,
}

impl PoolIdError {
    /// The model of an error.
    pub open spec fn fault(self) -> PoolIdFault {
        match self {
            PoolIdError::NotBech32 { found } => PoolIdFault::NotBech32 { found: found@ },
            PoolIdError::Prefix { found } => PoolIdFault::Prefix { found: found@ },
            PoolIdError::Length { bytes } => PoolIdFault::Length { bytes: bytes as int },
            PoolIdError::NotHex => PoolIdFault::NotHex,
        }
    }

    /// What is said of the text.
    pub fn message(&self) -> (r: String)
        ensures
            r@ == pool_fault_text(self.fault()),
    {
        match self {
            PoolIdError::NotBech32 { found } => {
                let mut r = outside::quote(found.as_str());
                r.append(" is not a bech32 pool id");
                r
            },
            PoolIdError::Prefix { found } => {
                let mut r = String::from_str("a pool id is bech32 under pool, not under ");
                r.append(outside::quote(found.as_str()).as_str());
                r
            },
            PoolIdError::Length { bytes } => {
                let mut r = String::from_str("a pool id is 28 bytes, not ");
                r.append(text::decimal_of(*bytes as u128).as_str());
                r
            },
            PoolIdError::NotHex => String::from_str("a pool id in hex is hex digits only"),
        }
    }
}

/// What is said of a text that names no pool.
pub open spec fn pool_fault_text(fault: PoolIdFault) -> Seq<char> {
    match fault {
        PoolIdFault::NotBech32 { found } => outside::quoted(found) + " is not a bech32 pool id"@,
        PoolIdFault::Prefix { found } => "a pool id is bech32 under pool, not under "@
            + outside::quoted(found),
        PoolIdFault::Length { bytes } => "a pool id is 28 bytes, not "@ + text::decimal(bytes),
        PoolIdFault::NotHex => "a pool id in hex is hex digits only"@,
    }
}

/// The pool a bech32 text names.
pub open spec fn pool_of_bech32(s: Seq<char>) -> Result<Seq<u8>, PoolIdFault> {
    match outside::bech32_data(s) {
        None => Err(PoolIdFault::NotBech32 { found: s }),
        Some((hrp, data)) => if hrp != "pool"@ {
            Err(PoolIdFault::Prefix { found: hrp })
        } else if data.len() != POOL_HASH_BYTES {
            Err(PoolIdFault::Length { bytes: data.len() as int })
        } else {
            Ok(data)
        },
    }
}

/// The pool a hexadecimal text names.
pub open spec fn pool_of_hex(s: Seq<char>) -> Result<Seq<u8>, PoolIdFault> {
    match hex::decoded(s) {
        None => Err(PoolIdFault::NotHex),
        Some(data) => if data.len() != POOL_HASH_BYTES {
            Err(PoolIdFault::Length { bytes: data.len() as int })
        } else {
            Ok(data)
        },
    }
}

/// The bech32 text of a pool.
pub open spec fn bech32_of_pool(hash: Seq<u8>) -> Seq<char> {
    outside::bech32_text("pool"@, hash)
}

impl View for PoolId {
    type V = Seq<u8>;

    open spec fn view(&self) -> Seq<u8> {
        self.hash@
    }
}

impl PoolId {
    /// Whether two ids name one pool.
    pub fn same(&self, other: &PoolId) -> (r: bool)
        ensures
            r == (self@ == other@),
            r == (*self == *other),
    {
        let r = bytes::same(self.hash.as_slice(), other.hash.as_slice());
        proof {
            if self@ == other@ {
                assert(self.hash =~= other.hash);
            }
        }
        r
    }

    /// The pool of a cold verification key.
    pub fn from_cold_key(key: &VerifyingKey) -> (r: PoolId)
        ensures
            r@ == outside::blake2b224(key@),
    {
        PoolId { hash: outside::blake2b_224(key.bytes.as_slice()) }
    }

    /// The pool a bech32 text names.
    pub fn from_bech32(s: &str) -> (r: Result<PoolId, PoolIdError>)
        ensures
            match r {
                Ok(id) => pool_of_bech32(s@) == Ok::<Seq<u8>, PoolIdFault>(id@),
                Err(error) => pool_of_bech32(s@) == Err::<Seq<u8>, PoolIdFault>(error.fault()),
            },
    {
        match outside::bech32_decode(s) {
            None => Err(PoolIdError::NotBech32 { found: String::from_str(s) }),
            Some((hrp, data)) => {
                if !text::same(hrp.as_str(), "pool") {
                    return Err(PoolIdError::Prefix { found: hrp });
                }
                if data.len() != POOL_HASH_BYTES {
                    return Err(PoolIdError::Length { bytes: data.len() });
                }
                Ok(PoolId { hash: bytes::fixed28(data.as_slice()) })
            },
        }
    }

    /// The pool a hexadecimal text names.
    pub fn from_hex(s: &str) -> (r: Result<PoolId, PoolIdError>)
        ensures
            match r {
                Ok(id) => pool_of_hex(s@) == Ok::<Seq<u8>, PoolIdFault>(id@),
                Err(error) => pool_of_hex(s@) == Err::<Seq<u8>, PoolIdFault>(error.fault()),
            },
    {
        match hex::decode(s, POOL_HASH_BYTES) {
            Ok(data) => Ok(PoolId { hash: bytes::fixed28(data.as_slice()) }),
            Err(HexError::NotHex) => Err(PoolIdError::NotHex),
            Err(HexError::WrongLength { found, .. }) => Err(PoolIdError::Length { bytes: found }),
        }
    }

    /// The bech32 text of this pool. It reads back as this pool, and no `-`, `/` or character
    /// past ASCII stands in it.
    pub fn to_bech32(&self) -> (r: String)
        ensures
            r@ == bech32_of_pool(self@),
            pool_of_bech32(r@) == Ok::<Seq<u8>, PoolIdFault>(self@),
            forall|i: int| 0 <= i < r@.len() ==> outside::bech32_char(#[trigger] r@[i]),
    {
        outside::bech32_encode_pool(&self.hash)
    }

    /// The hash itself.
    pub fn as_hash(&self) -> (r: &[u8; 28])
        ensures
            r@ == self@,
    {
        &self.hash
    }
}

/// A pool id is read from hex exactly where the hex is of its twenty-eight bytes, and is then
/// those.
pub proof fn a_pool_reads_back_from_hex(bytes: Seq<u8>)
    ensures
        bytes.len() == 28 ==> pool_of_hex(hex::encoded(bytes)) == Ok::<Seq<u8>, PoolIdFault>(bytes),
        bytes.len() != 28 ==> pool_of_hex(hex::encoded(bytes)) == Err::<Seq<u8>, PoolIdFault>(
            PoolIdFault::Length { bytes: bytes.len() as int },
        ),
{
    hex::decode_inverts_encode(bytes);
}

/// What is read from bech32 is twenty-eight bytes under the pool prefix, and all of the data there:
/// another prefix, or another length, is refused.
pub proof fn a_pool_is_all_of_its_data(s: Seq<char>)
    ensures
        pool_of_bech32(s) matches Ok(hash) ==> hash.len() == 28 && outside::bech32_data(s) == Some(
            ("pool"@, hash),
        ),
        outside::bech32_data(s) matches Some((hrp, data)) ==> (pool_of_bech32(s) is Ok <==> hrp
            == "pool"@ && data.len() == 28),
        outside::bech32_data(s) is None ==> pool_of_bech32(s) == Err::<Seq<u8>, PoolIdFault>(
            PoolIdFault::NotBech32 { found: s },
        ),
{
}

}
