//! Query values, percent-escaped and read back.

use vstd::prelude::*;
use vstd::utf8;

use crate::outside;

verus! {

/// Whether a byte survives as itself: the unreserved set, and nothing else. An object key holds
/// `/` and a prefix is whatever the caller typed.
pub open spec fn unreserved(b: u8) -> bool {
    (65 <= b <= 90) || (97 <= b <= 122) || (48 <= b <= 57) || b == 45 || b == 46 || b == 95 || b
        == 126
}

/// The upper-case digit of one nibble.
pub open spec fn upper_nibble(n: int) -> u8 {
    if n < 10 {
        (48 + n) as u8
    } else {
        (55 + n) as u8
    }
}

/// What one byte is written as.
pub open spec fn escape_of(b: u8) -> Seq<u8> {
    if unreserved(b) {
        seq![b]
    } else {
        seq![37u8, upper_nibble(b as int / 16), upper_nibble(b as int % 16)]
    }
}

/// What bytes are written as.
pub open spec fn escaped_bytes(bytes: Seq<u8>) -> Seq<u8>
    decreases bytes.len(),
{
    if bytes.len() == 0 {
        Seq::empty()
    } else {
        escape_of(bytes[0]) + escaped_bytes(bytes.skip(1))
    }
}

/// The text that ASCII bytes are.
pub open spec fn ascii_text(bytes: Seq<u8>) -> Seq<char> {
    bytes.map_values(|b: u8| b as char)
}

/// A query value as it is written in a URL.
pub open spec fn escaped_text(value: Seq<char>) -> Seq<char> {
    ascii_text(escaped_bytes(utf8::encode_utf8(value)))
}

/// What a hexadecimal digit is worth, in either case.
pub open spec fn digit_worth(b: u8) -> Option<int> {
    if 48 <= b <= 57 {
        Some(b - 48)
    } else if 65 <= b <= 70 {
        Some(b - 55)
    } else if 97 <= b <= 102 {
        Some(b - 87)
    } else {
        None
    }
}

/// The byte that an escape at the head of `bytes` stands for.
pub open spec fn escape_at_head(bytes: Seq<u8>) -> Option<u8> {
    if bytes.len() >= 3 && bytes[0] == 37 {
        match (digit_worth(bytes[1]), digit_worth(bytes[2])) {
            (Some(high), Some(low)) => Some((16 * high + low) as u8),
            _ => None,
        }
    } else {
        None
    }
}

/// Bytes with each `%XX` in place of what it stands for. A malformed escape, half-written or
/// complete but not hex, stays as written.
pub open spec fn unescaped_bytes(bytes: Seq<u8>) -> Seq<u8>
    decreases bytes.len(),
{
    if bytes.len() == 0 {
        Seq::empty()
    } else {
        match escape_at_head(bytes) {
            Some(b) => seq![b] + unescaped_bytes(bytes.skip(3)),
            None => seq![bytes[0]] + unescaped_bytes(bytes.skip(1)),
        }
    }
}

/// A query value as it is read, or nothing where the bytes that come out are not UTF-8. Refused
/// rather than replaced: a lossy decode would answer a query the client did not send.
pub open spec fn unescaped_text(value: Seq<char>) -> Option<Seq<char>> {
    let bytes = unescaped_bytes(utf8::encode_utf8(value));
    if utf8::valid_utf8(bytes) {
        Some(utf8::decode_utf8(bytes))
    } else {
        None
    }
}

proof fn lemma_upper_nibble(n: int)
    requires
        0 <= n < 16,
    ensures
        digit_worth(upper_nibble(n)) == Some(n),
        upper_nibble(n) < 128,
{
}

proof fn lemma_unescaped_escaped(bytes: Seq<u8>)
    ensures
        unescaped_bytes(escaped_bytes(bytes)) == bytes,
        forall|i: int| 0 <= i < escaped_bytes(bytes).len() ==> #[trigger] escaped_bytes(bytes)[i] < 128,
    decreases bytes.len(),
{
    if bytes.len() > 0 {
        let b = bytes[0];
        let head = escape_of(b);
        let rest = escaped_bytes(bytes.skip(1));
        let all = escaped_bytes(bytes);
        lemma_unescaped_escaped(bytes.skip(1));
        if unreserved(b) {
            assert(all[0] == b);
            assert(all.skip(1) =~= rest);
        } else {
            lemma_upper_nibble(b as int / 16);
            lemma_upper_nibble(b as int % 16);
            assert(all[0] == 37);
            assert(all[1] == upper_nibble(b as int / 16));
            assert(all[2] == upper_nibble(b as int % 16));
            assert(all.skip(3) =~= rest);
        }
        assert(seq![b] + bytes.skip(1) =~= bytes);
        assert forall|i: int| 0 <= i < all.len() implies #[trigger] all[i] < 128 by {
            if i >= head.len() {
                assert(all[i] == rest[i - head.len()]);
            }
        }
    } else {
        assert(unescaped_bytes(escaped_bytes(bytes)) =~= bytes);
    }
}

/// The bytes of an ASCII text are its characters.
pub proof fn lemma_ascii_text(bytes: Seq<u8>)
    requires
        forall|i: int| 0 <= i < bytes.len() ==> #[trigger] bytes[i] < 128,
    ensures
        utf8::encode_utf8(ascii_text(bytes)) == bytes,
{
    let s = ascii_text(bytes);
    assert(utf8::is_ascii_chars(s)) by {
        assert forall|i: int| 0 <= i < s.len() implies '\0' <= #[trigger] s[i] <= '\u{7f}' by {
            assert(bytes[i] < 128);
        }
    }
    utf8::is_ascii_chars_encode_utf8(s);
    assert forall|i: int| 0 <= i < bytes.len() implies utf8::encode_utf8(s)[i] == bytes[i] by {
        assert(bytes[i] < 128);
        assert(s[i] as u8 == bytes[i]);
    }
    assert(utf8::encode_utf8(s) =~= bytes);
}

/// What one side escapes the other reads back: decoding inverts escaping, whatever the value.
pub proof fn decode_inverts_escape(value: Seq<char>)
    ensures
        unescaped_text(escaped_text(value)) == Some(value),
{
    let bytes = utf8::encode_utf8(value);
    lemma_unescaped_escaped(bytes);
    lemma_ascii_text(escaped_bytes(bytes));
    utf8::encode_utf8_valid_utf8(value);
    utf8::encode_utf8_decode_utf8(value);
}

/// No character that a query is taken apart at stands in an escaped value.
pub proof fn escaped_has_no_separator(value: Seq<char>)
    ensures
        !escaped_text(value).contains('&'),
        !escaped_text(value).contains('='),
        !escaped_text(value).contains('?'),
{
    lemma_plain(utf8::encode_utf8(value));
    let bytes = escaped_bytes(utf8::encode_utf8(value));
    let s = escaped_text(value);
    assert forall|i: int| 0 <= i < s.len() implies s[i] != '&' && s[i] != '=' && s[i] != '?' by {
        assert(s[i] == bytes[i] as char);
        assert(unreserved(bytes[i]) || bytes[i] == 37);
    }
}

proof fn lemma_plain(bytes: Seq<u8>)
    ensures
        forall|i: int|
            0 <= i < escaped_bytes(bytes).len() ==> unreserved(#[trigger] escaped_bytes(bytes)[i])
                || escaped_bytes(bytes)[i] == 37,
    decreases bytes.len(),
{
    if bytes.len() > 0 {
        lemma_plain(bytes.skip(1));
        let b = bytes[0];
        let head = escape_of(b);
        let rest = escaped_bytes(bytes.skip(1));
        let all = escaped_bytes(bytes);
        assert(0 <= b as int / 16 < 16);
        assert(0 <= b as int % 16 < 16);
        assert forall|i: int| 0 <= i < all.len() implies unreserved(#[trigger] all[i]) || all[i]
            == 37 by {
            if i < head.len() {
                assert(all[i] == head[i]);
            } else {
                assert(all[i] == rest[i - head.len()]);
            }
        }
    }
}

fn upper_digit(n: u8) -> (r: u8)
    requires
        n < 16,
    ensures
        r == upper_nibble(n as int),
        r < 128,
{
    if n < 10 {
        48 + n
    } else {
        55 + n
    }
}

fn worth_of(b: u8) -> (r: Option<u8>)
    ensures
        match r {
            Some(n) => n < 16 && digit_worth(b) == Some(n as int),
            None => digit_worth(b) is None,
        },
{
    if 48 <= b && b <= 57 {
        Some(b - 48)
    } else if 65 <= b && b <= 70 {
        Some(b - 55)
    } else if 97 <= b && b <= 102 {
        Some(b - 87)
    } else {
        None
    }
}

proof fn lemma_escaped_push(bytes: Seq<u8>, i: int)
    requires
        0 <= i < bytes.len(),
    ensures
        escaped_bytes(bytes.take(i + 1)) == escaped_bytes(bytes.take(i)) + escape_of(bytes[i]),
    decreases i,
{
    let a = bytes.take(i + 1);
    if i == 0 {
        assert(a.skip(1) =~= Seq::<u8>::empty());
        assert(bytes.take(0) =~= Seq::<u8>::empty());
        assert(escaped_bytes(Seq::<u8>::empty()) =~= Seq::<u8>::empty());
        assert(escaped_bytes(a) =~= escape_of(bytes[0]));
        assert(escaped_bytes(bytes.take(0)) + escape_of(bytes[0]) =~= escape_of(bytes[0]));
    } else {
        let rest = bytes.skip(1);
        lemma_escaped_push(rest, i - 1);
        assert(a.skip(1) =~= rest.take(i));
        assert(bytes.take(i).skip(1) =~= rest.take(i - 1));
        assert(rest[i - 1] == bytes[i]);
        assert(escaped_bytes(a) =~= escape_of(bytes[0]) + (escaped_bytes(rest.take(i - 1))
            + escape_of(bytes[i])));
        assert(escaped_bytes(bytes.take(i)) =~= escape_of(bytes[0]) + escaped_bytes(
            rest.take(i - 1),
        ));
    }
}

/// One query value, percent-escaped.
pub fn escaped(value: &str) -> (r: String)
    ensures
        r@ == escaped_text(value@),
{
    let bytes = value.as_bytes();
    let mut r: String = String::new();
    assert(r@ =~= ascii_text(escaped_bytes(bytes@.take(0))));
    for i in 0..bytes.len()
        invariant
            bytes@ == utf8::encode_utf8(value@),
            r@ == ascii_text(escaped_bytes(bytes@.take(i as int))),
    {
        let b = bytes[i];
        let ghost so_far = r@;
        proof {
            lemma_escaped_push(bytes@, i as int);
        }
        let plain: bool = (65 <= b && b <= 90) || (97 <= b && b <= 122) || (48 <= b && b <= 57) || b
            == 45 || b == 46 || b == 95 || b == 126;
        if plain {
            r.push(b as char);
        } else {
            r.push('%');
            r.push(upper_digit(b / 16) as char);
            r.push(upper_digit(b % 16) as char);
        }
        assert(r@ =~= so_far + ascii_text(escape_of(b)));
        assert(ascii_text(escaped_bytes(bytes@.take(i as int)) + escape_of(b)) =~= so_far
            + ascii_text(escape_of(b)));
    }
    assert(bytes@.take(bytes@.len() as int) =~= bytes@);
    r
}

/// `%XX` decoded, or nothing where the bytes that come out are not UTF-8.
pub fn percent_decoded(value: &str) -> (r: Option<String>)
    ensures
        crate::text::view_of(r) == unescaped_text(value@),
{
    let bytes = value.as_bytes();
    let mut decoded: Vec<u8> = Vec::new();
    let mut i: usize = 0;
    let length: usize = bytes.len();
    assert(bytes@.skip(0) =~= bytes@);
    while i < length
        invariant
            bytes@ == utf8::encode_utf8(value@),
            length == bytes@.len(),
            i <= length,
            decoded@ + unescaped_bytes(bytes@.skip(i as int)) == unescaped_bytes(bytes@),
        decreases bytes@.len() - i,
    {
        let ghost rest = bytes@.skip(i as int);
        let ghost so_far = decoded@;
        let mut escape: Option<u8> = None;
        if length - i >= 3 && bytes[i] == 37 {
            match (worth_of(bytes[i + 1]), worth_of(bytes[i + 2])) {
                (Some(high), Some(low)) => {
                    escape = Some(16 * high + low);
                },
                _ => {},
            }
        }
        assert(escape == escape_at_head(rest));
        match escape {
            Some(b) => {
                decoded.push(b);
                assert(rest.skip(3) =~= bytes@.skip(i + 3));
                assert(decoded@ + unescaped_bytes(bytes@.skip(i + 3)) =~= so_far
                    + unescaped_bytes(rest));
                i += 3;
            },
            None => {
                decoded.push(bytes[i]);
                assert(rest.skip(1) =~= bytes@.skip(i + 1));
                assert(decoded@ + unescaped_bytes(bytes@.skip(i + 1)) =~= so_far
                    + unescaped_bytes(rest));
                i += 1;
            },
        }
    }
    assert(bytes@.skip(i as int).len() == 0);
    assert(decoded@ =~= unescaped_bytes(bytes@));
    match outside::text_from_utf8(decoded.as_slice()) {
        Ok(s) => {
            proof {
                utf8::encode_utf8_valid_utf8(s@);
                utf8::encode_utf8_decode_utf8(s@);
            }
            Some(s)
        },
        Err(_) => None,
    }
}

/// What holds no escape stays as it is; an escape stands for one byte, its digits in either case;
/// and what begins like one and is none stays too.
pub proof fn only_escapes_are_undone(bytes: Seq<u8>, b: u8)
    ensures
        !bytes.contains(37u8) ==> unescaped_bytes(bytes) == bytes,
        unescaped_bytes(
            seq![37u8, upper_nibble(b as int / 16), upper_nibble(b as int % 16)] + bytes,
        ) == seq![b] + unescaped_bytes(bytes),
        bytes.len() >= 2 && (digit_worth(bytes[0]) is None || digit_worth(bytes[1]) is None)
            ==> unescaped_bytes(seq![37u8] + bytes) == seq![37u8] + unescaped_bytes(bytes),
        bytes.len() < 2 ==> unescaped_bytes(seq![37u8] + bytes) == seq![37u8] + unescaped_bytes(
            bytes,
        ),
    decreases bytes.len(),
{
    if bytes.len() > 0 {
        let rest = bytes.skip(1);
        if !bytes.contains(37u8) {
            assert(!rest.contains(37u8)) by {
                if rest.contains(37u8) {
                    let i = choose|i: int| 0 <= i < rest.len() && rest[i] == 37u8;
                    assert(bytes[i + 1] == 37u8);
                }
            }
            assert(bytes.contains(bytes[0]));
            only_escapes_are_undone(rest, b);
            assert(unescaped_bytes(bytes) =~= bytes);
        }
    }
    let high = upper_nibble(b as int / 16);
    let low = upper_nibble(b as int % 16);
    lemma_upper_nibble(b as int / 16);
    lemma_upper_nibble(b as int % 16);
    let escape = seq![37u8, high, low] + bytes;
    assert(escape.skip(3) =~= bytes);
    assert((seq![37u8] + bytes).skip(1) =~= bytes);
}

/// A digit of an escape may be written in either case.
pub proof fn an_escape_is_read_in_either_case(digit: u8)
    requires
        97 <= digit <= 102,
    ensures
        digit_worth(digit) == digit_worth((digit - 32) as u8),
        digit_worth(digit) == Some(digit - 87),
{
}

/// An escaped text holds nothing but letters, digits, `-`, `.`, `_`, `~` and escapes; what is one
/// of those already is not escaped.
pub proof fn plain_bytes_stay(bytes: Seq<u8>)
    ensures
        (forall|i: int|
            0 <= i < bytes.len() ==> (65 <= #[trigger] bytes[i] <= 90 || 97 <= bytes[i] <= 122 || 48
                <= bytes[i] <= 57 || bytes[i] == 45 || bytes[i] == 46 || bytes[i] == 95 || bytes[i]
                == 126)) ==> escaped_bytes(bytes) == bytes,
        forall|i: int|
            0 <= i < escaped_bytes(bytes).len() ==> (65 <= #[trigger] escaped_bytes(bytes)[i] <= 90
                || 97 <= escaped_bytes(bytes)[i] <= 122 || 48 <= escaped_bytes(bytes)[i] <= 57
                || escaped_bytes(bytes)[i] == 45 || escaped_bytes(bytes)[i] == 46 || escaped_bytes(
                bytes,
            )[i] == 95 || escaped_bytes(bytes)[i] == 126 || escaped_bytes(bytes)[i] == 37),
    decreases bytes.len(),
{
    if bytes.len() > 0 {
        let rest = bytes.skip(1);
        plain_bytes_stay(rest);
        let head = escape_of(bytes[0]);
        assert(forall|i: int| 0 <= i < rest.len() ==> rest[i] == #[trigger] bytes[i + 1]);
        assert forall|i: int| 0 <= i < escaped_bytes(bytes).len() implies (65
            <= #[trigger] escaped_bytes(bytes)[i] <= 90 || 97 <= escaped_bytes(bytes)[i] <= 122
            || 48 <= escaped_bytes(bytes)[i] <= 57 || escaped_bytes(bytes)[i] == 45
            || escaped_bytes(bytes)[i] == 46 || escaped_bytes(bytes)[i] == 95 || escaped_bytes(
            bytes,
        )[i] == 126 || escaped_bytes(bytes)[i] == 37) by {
            if i >= head.len() {
                assert(escaped_bytes(bytes)[i] == escaped_bytes(rest)[i - head.len()]);
            }
        }
        if forall|i: int|
            0 <= i < bytes.len() ==> (65 <= #[trigger] bytes[i] <= 90 || 97 <= bytes[i] <= 122 || 48
                <= bytes[i] <= 57 || bytes[i] == 45 || bytes[i] == 46 || bytes[i] == 95 || bytes[i]
                == 126) {
            assert(escaped_bytes(rest) == rest);
            assert(escaped_bytes(bytes) =~= bytes);
        }
    }
}

}
