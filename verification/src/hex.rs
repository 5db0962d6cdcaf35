//! Bytes as lower-case hexadecimal text, and back.

use vstd::prelude::*;

use crate::text;

verus! {

/// Why a text does not decode.
#[derive(Debug, Clone, Copy, PartialEq, Eq, Structural)]
pub enum HexError {
    /// Some character is no hexadecimal digit, or their number is odd.
    NotHex,
    /// It decodes, to another number of bytes than was wanted.
    WrongLength { found: usize, expected: usize },
}

impl HexError {
    /// What is said of the text.
    pub open spec fn spelled(self) -> Seq<char> {
        match self {
            HexError::NotHex => "not hex"@,
            HexError::WrongLength { found, expected } => text::decimal(found as int)
                + " bytes, expected "@ + text::decimal(expected as int),
        }
    }

    /// What is said of the text.
    pub fn message(&self) -> (r: String)
        ensures
            r@ == self.spelled(),
    {
        match self {
            HexError::NotHex => String::from_str("not hex"),
            HexError::WrongLength { found, expected } => {
                let mut r = text::decimal_of(*found as u128);
                r.append(" bytes, expected ");
                r.append(text::decimal_of(*expected as u128).as_str());
                r
            },
        }
    }
}

/// The lower-case digit of one nibble.
pub open spec fn nibble_char(n: int) -> char {
    if n < 10 {
        (('0' as int) + n) as char
    } else {
        (('a' as int) + n - 10) as char
    }
}

/// What one digit is worth, in either case.
pub open spec fn nibble_value(c: char) -> Option<int> {
    if '0' <= c <= '9' {
        Some(c as int - '0' as int)
    } else if 'a' <= c <= 'f' {
        Some(c as int - 'a' as int + 10)
    } else if 'A' <= c <= 'F' {
        Some(c as int - 'A' as int + 10)
    } else {
        None
    }
}

/// The hexadecimal text of `bytes`: two digits each, the high nibble first.
pub open spec fn encoded(bytes: Seq<u8>) -> Seq<char> {
    Seq::new(
        2 * bytes.len(),
        |i: int|
            if i % 2 == 0 {
                nibble_char(bytes[i / 2] as int / 16)
            } else {
                nibble_char(bytes[i / 2] as int % 16)
            },
    )
}

/// Whether every character is a digit and they pair up.
pub open spec fn is_hex(s: Seq<char>) -> bool {
    s.len() % 2 == 0 && forall|i: int| 0 <= i < s.len() ==> nibble_value(#[trigger] s[i]) is Some
}

/// The bytes a hexadecimal text spells.
pub open spec fn decoded(s: Seq<char>) -> Option<Seq<u8>> {
    if is_hex(s) {
        Some(
            Seq::new(
                (s.len() / 2) as nat,
                |i: int| (16 * nibble_value(s[2 * i])->0 + nibble_value(s[2 * i + 1])->0) as u8,
            ),
        )
    } else {
        None
    }
}

/// What was encoded decodes to itself.
pub proof fn decode_inverts_encode(bytes: Seq<u8>)
    ensures
        decoded(encoded(bytes)) == Some(bytes),
{
    let s = encoded(bytes);
    assert forall|i: int| 0 <= i < s.len() implies nibble_value(#[trigger] s[i]) is Some by {}
    assert forall|i: int| 0 <= i < bytes.len() implies decoded(s)->0[i] == bytes[i] by {
        assert(s[2 * i] == nibble_char(bytes[i] as int / 16));
        assert(s[2 * i + 1] == nibble_char(bytes[i] as int % 16));
    }
    assert(decoded(s)->0 =~= bytes);
}

fn nibble_of(n: u8) -> (c: char)
    requires
        n < 16,
    ensures
        c == nibble_char(n as int),
{
    if n < 10 {
        (48u8 + n) as char
    } else {
        (87u8 + n) as char
    }
}

fn value_of(c: char) -> (r: Option<u8>)
    ensures
        match r {
            Some(n) => n < 16 && nibble_value(c) == Some(n as int),
            None => nibble_value(c) is None,
        },
{
    if '0' <= c && c <= '9' {
        Some((c as u32 - 48) as u8)
    } else if 'a' <= c && c <= 'f' {
        Some((c as u32 - 87) as u8)
    } else if 'A' <= c && c <= 'F' {
        Some((c as u32 - 55) as u8)
    } else {
        None
    }
}

/// The hexadecimal text of `bytes`.
pub fn encode(bytes: &[u8]) -> (r: String)
    ensures
        r@ == encoded(bytes@),
{
    let mut r: String = String::new();
    for i in 0..bytes.len()
        invariant
            r@ == encoded(bytes@.take(i as int)),
    {
        let ghost before = r@;
        r.push(nibble_of(bytes[i] / 16));
        r.push(nibble_of(bytes[i] % 16));
        assert(r@ =~= encoded(bytes@.take(i + 1)));
    }
    assert(bytes@.take(bytes@.len() as int) =~= bytes@);
    r
}

/// The bytes a hexadecimal text spells.
pub fn decode_bytes(s: &str) -> (r: Result<Vec<u8>, HexError>)
    ensures
        match r {
            Ok(bytes) => decoded(s@) == Some(bytes@),
            Err(error) => decoded(s@) is None && error == HexError::NotHex,
        },
{
    let x = text::chars_of(s);
    if x.len() % 2 != 0 {
        return Err(HexError::NotHex);
    }
    let mut r: Vec<u8> = Vec::new();
    let mut i: usize = 0;
    while i < x.len()
        invariant
            x@ == s@,
            x@.len() % 2 == 0,
            i % 2 == 0,
            i <= x@.len(),
            forall|j: int| 0 <= j < i ==> nibble_value(#[trigger] s@[j]) is Some,
            r@.len() == i / 2,
            forall|j: int|
                0 <= j < r@.len() ==> #[trigger] r@[j] == (16 * nibble_value(s@[2 * j])->0
                    + nibble_value(s@[2 * j + 1])->0) as u8,
        decreases x@.len() - i,
    {
        match (value_of(x[i]), value_of(x[i + 1])) {
            (Some(high), Some(low)) => {
                r.push(16 * high + low);
            },
            _ => {
                assert(nibble_value(s@[i as int]) is None || nibble_value(s@[i + 1]) is None);
                return Err(HexError::NotHex);
            },
        }
        i += 2;
    }
    assert(decoded(s@)->0 =~= r@);
    Ok(r)
}

/// The bytes a hexadecimal text spells, where there are `expected` of them.
pub open spec fn decoded_exact(s: Seq<char>, expected: int) -> Result<Seq<u8>, HexError> {
    match decoded(s) {
        None => Err(HexError::NotHex),
        Some(bytes) => if bytes.len() != expected {
            Err(
                HexError::WrongLength { found: bytes.len() as usize, expected: expected as usize },
            )
        } else {
            Ok(bytes)
        },
    }
}

/// The bytes a hexadecimal text spells, where there are `expected` of them.
pub fn decode(s: &str, expected: usize) -> (r: Result<Vec<u8>, HexError>)
    ensures
        match r {
            Ok(bytes) => decoded_exact(s@, expected as int) == Ok::<Seq<u8>, HexError>(bytes@)
                && bytes@.len() == expected,
            Err(error) => decoded_exact(s@, expected as int) == Err::<Seq<u8>, HexError>(error),
        },
        r matches Err(HexError::WrongLength { found, .. }) ==> found == decoded(s@)->0.len(),
{
    let bytes = decode_bytes(s)?;
    if bytes.len() != expected {
        return Err(HexError::WrongLength { found: bytes.len(), expected });
    }
    Ok(bytes)
}

/// Exactly the texts of an even number of hex digits, of either case, decode; and what they decode
/// to is written as they are, in lower case.
pub proof fn encode_inverts_decode(s: Seq<char>)
    ensures
        decoded(s) is Some <==> s.len() % 2 == 0 && forall|i: int|
            0 <= i < s.len() ==> ('0' <= #[trigger] s[i] <= '9' || 'a' <= s[i] <= 'f' || 'A' <= s[i]
                <= 'F'),
        decoded(s) matches Some(bytes) ==> {
            &&& 2 * bytes.len() == s.len()
            &&& encoded(bytes).len() == s.len()
            &&& forall|i: int|
                0 <= i < s.len() ==> encoded(bytes)[i] as int == (#[trigger] s[i]) as int + if 'A'
                    <= s[i] <= 'F' {
                    32int
                } else {
                    0
                }
        },
{
    assert forall|i: int| 0 <= i < s.len() implies (nibble_value(#[trigger] s[i]) is Some <==> ('0'
        <= s[i] <= '9' || 'a' <= s[i] <= 'f' || 'A' <= s[i] <= 'F')) by {}
    if let Some(bytes) = decoded(s) {
        assert forall|i: int| 0 <= i < s.len() implies encoded(bytes)[i] as int == (
        #[trigger] s[i]) as int + if 'A' <= s[i] <= 'F' {
            32int
        } else {
            0
        } by {
            let k = i / 2;
            assert(nibble_value(s[2 * k]) is Some);
            assert(nibble_value(s[2 * k + 1]) is Some);
            let high = nibble_value(s[2 * k])->0;
            let low = nibble_value(s[2 * k + 1])->0;
            assert(bytes[k] == 16 * high + low);
            assert(bytes[k] as int / 16 == high && bytes[k] as int % 16 == low);
        }
    }
}

/// A text decodes to an expected number of bytes where it decodes to that many, and to no other.
pub proof fn an_exact_length_is_kept(bytes: Seq<u8>, expected: int)
    ensures
        bytes.len() == expected ==> decoded_exact(encoded(bytes), expected) == Ok::<
            Seq<u8>,
            HexError,
        >(bytes),
        bytes.len() != expected ==> decoded_exact(encoded(bytes), expected) matches Err(
            HexError::WrongLength { .. },
        ),
{
    decode_inverts_encode(bytes);
}

}
