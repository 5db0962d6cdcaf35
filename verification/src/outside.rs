//! Every call this library makes into a crate it does not own, and what it relies on each for.
//! Nothing here is proved: each contract says what the named function does, and each body makes
//! that one call.

use vstd::prelude::*;
use vstd::utf8;

use crate::date::Date;
use crate::server::http;
use crate::server::s3;
use crate::server::s3::Target;
use crate::server::serve::AcceptFailure;
use crate::text;

verus! {

/// What `core::str::Debug` writes for a text: its name here, as what it escapes is a table of
/// the standard library's.
pub uninterp spec fn quoted(s: Seq<char>) -> Seq<char>;

/// `<str as Debug>::fmt`: the text in double quotes, with what needs escaping escaped.
#[verifier::external_body]
pub(crate) fn quote(s: &str) -> (r: String)
    ensures
        r@ == quoted(s@),
{
    format!("{s:?}")
}

/// What is said of bytes that are not UTF-8.
pub uninterp spec fn utf8_refusal(bytes: Seq<u8>) -> Seq<char>;

/// `String::from_utf8`: the text that the bytes encode, or what its error says where they are not
/// UTF-8.
#[verifier::external_body]
pub(crate) fn text_from_utf8(bytes: &[u8]) -> (r: Result<String, String>)
    ensures
        match r {
            Ok(s) => utf8::encode_utf8(s@) == bytes@,
            Err(error) => !utf8::valid_utf8(bytes@) && error@ == utf8_refusal(bytes@),
        },
{
    String::from_utf8(bytes.to_vec()).map_err(|error| error.to_string())
}

/// The text of `data` in bech32 under a human-readable part.
pub uninterp spec fn bech32_text(hrp: Seq<char>, data: Seq<u8>) -> Seq<char>;

/// What a bech32 text carries: its human-readable part and its data, where its characters and
/// its checksum stand.
pub uninterp spec fn bech32_data(s: Seq<char>) -> Option<(Seq<char>, Seq<u8>)>;

/// The characters that stand in a bech32 text under a human-readable part of lower-case
/// letters: those letters, the separator `1`, and the lower-case alphabet of the data part.
pub open spec fn bech32_char(c: char) -> bool {
    '0' <= c <= '9' || 'a' <= c <= 'z'
}

/// `bech32::encode::<Bech32>` of 28 bytes under `pool`, which is short of every limit that the
/// encoder has. The text reads back as those bytes under that part, and is made of lower-case
/// letters and digits.
#[verifier::external_body]
pub(crate) fn bech32_encode_pool(data: &[u8; 28]) -> (r: String)
    ensures
        r@ == bech32_text("pool"@, data@),
        bech32_data(r@) == Some(("pool"@, data@)),
        forall|i: int| 0 <= i < r@.len() ==> bech32_char(#[trigger] r@[i]),
{
    let hrp = bech32::Hrp::parse("pool").expect("four lower-case letters");
    bech32::encode::<bech32::Bech32>(hrp, data).expect("28 bytes are within the code length")
}

/// `CheckedHrpstring::new::<Bech32>`: the human-readable part and the data of a text whose
/// characters and checksum stand.
#[verifier::external_body]
pub(crate) fn bech32_decode(s: &str) -> (r: Option<(String, Vec<u8>)>)
    ensures
        match r {
            Some((hrp, data)) => bech32_data(s@) == Some((hrp@, data@)),
            None => bech32_data(s@) is None,
        },
{
    bech32::primitives::decode::CheckedHrpstring::new::<bech32::Bech32>(s)
        .ok()
        .map(|checked| (checked.hrp().to_string(), checked.byte_iter().collect()))
}

/// The BLAKE2b digest of 28 bytes.
pub uninterp spec fn blake2b224(message: Seq<u8>) -> Seq<u8>;

/// `blake2::Blake2b` with a 28-byte output.
#[verifier::external_body]
pub(crate) fn blake2b_224(message: &[u8]) -> (r: [u8; 28])
    ensures
        r@ == blake2b224(message@),
{
    <blake2::Blake2b<blake2::digest::consts::U28> as blake2::Digest>::digest(message).into()
}

/// What is said against 32 bytes that Ed25519 does not take as a verification key; nothing of
/// those it takes.
pub uninterp spec fn ed25519_refusal(key: Seq<u8>) -> Option<Seq<char>>;

/// Whether 32 bytes are a point that Ed25519 takes as a verification key.
pub open spec fn ed25519_point(key: Seq<u8>) -> bool {
    ed25519_refusal(key) is None
}

/// `ed25519_dalek::VerifyingKey::from_bytes`: nothing where the bytes decompress to a point, and
/// otherwise what its error says.
#[verifier::external_body]
pub(crate) fn ed25519_check_key(key: &[u8; 32]) -> (r: Option<String>)
    ensures
        crate::text::view_of(r) == ed25519_refusal(key@),
{
    ed25519_dalek::VerifyingKey::from_bytes(key).err().map(|error| error.to_string())
}

/// Whether a signature stands over a message under a key, weak keys and malleable encodings
/// refused.
pub uninterp spec fn ed25519_strict(key: Seq<u8>, message: Seq<u8>, signature: Seq<u8>) -> bool;

/// `ed25519_dalek::VerifyingKey::verify_strict` under the key that `from_bytes` makes: whether it
/// accepts. Bytes that are no key accept nothing.
#[verifier::external_body]
pub(crate) fn ed25519_verify_strict(key: &[u8; 32], message: &[u8], signature: &[u8; 64]) -> (r:
    bool)
    ensures
        r == ed25519_strict(key@, message@, signature@),
        r ==> ed25519_point(key@),
{
    let signature = ed25519_dalek::Signature::from_bytes(signature);
    match ed25519_dalek::VerifyingKey::from_bytes(key) {
        Ok(key) => key.verify_strict(message, &signature).is_ok(),
        Err(_) => false,
    }
}

/// The text of bytes in the standard base64 alphabet, padded.
pub uninterp spec fn base64_text(data: Seq<u8>) -> Seq<char>;

/// A character of the standard base64 alphabet, or of its padding.
pub open spec fn base64_char(c: char) -> bool {
    'A' <= c <= 'Z' || 'a' <= c <= 'z' || '0' <= c <= '9' || c == '+' || c == '/' || c == '='
}

/// `base64::engine::general_purpose::STANDARD.encode`: a text of that alphabet, which the same
/// engine decodes to the bytes again.
#[verifier::external_body]
pub(crate) fn base64_encode(data: &[u8]) -> (r: String)
    ensures
        r@ == base64_text(data@),
        base64_bytes(r@) == Some(data@),
        forall|i: int| 0 <= i < r@.len() ==> base64_char(#[trigger] r@[i]),
{
    base64::Engine::encode(&base64::engine::general_purpose::STANDARD, data)
}

/// The bytes that a text spells in the standard base64 alphabet, padded.
pub uninterp spec fn base64_bytes(s: Seq<char>) -> Option<Seq<u8>>;

/// `base64::engine::general_purpose::STANDARD.decode`.
#[verifier::external_body]
pub(crate) fn base64_decode(s: &str) -> (r: Option<Vec<u8>>)
    ensures
        match r {
            Some(data) => base64_bytes(s@) == Some(data@),
            None => base64_bytes(s@) is None,
        },
{
    base64::Engine::decode(&base64::engine::general_purpose::STANDARD, s).ok()
}

/// Thirty-two lower-case hexadecimal digits in groups of 8, 4, 4, 4 and 12, with `-` between
/// them: how an id is written.
pub open spec fn hyphenated(id: u128) -> Seq<char> {
    Seq::new(
        36,
        |i: int|
            if i == 8 || i == 13 || i == 18 || i == 23 {
                '-'
            } else {
                crate::hex::nibble_char(nibble(id, digit_at(i)))
            },
    )
}

/// Which digit stands at place `i` of the hyphenated form.
pub open spec fn digit_at(i: int) -> int {
    if i < 8 {
        i
    } else if i < 13 {
        i - 1
    } else if i < 18 {
        i - 2
    } else if i < 23 {
        i - 3
    } else {
        i - 4
    }
}

/// The `k`-th of the 32 nibbles of `id`, the most significant first.
pub open spec fn nibble(id: u128, k: int) -> int {
    (id as int / vstd::arithmetic::power::pow(16, (31 - k) as nat)) % 16
}

/// A text with its upper-case ASCII letters lowered.
pub open spec fn lowered(s: Seq<char>) -> Seq<char> {
    s.map_values(
        |c: char|
            if 'A' <= c <= 'Z' {
                (c as int + 32) as char
            } else {
                c
            },
    )
}

/// `uuid::Uuid::try_parse` on 36 bytes: such a text is an id exactly where it is the hyphenated
/// form in letters of either case. What it says of any other is one text.
#[verifier::external_body]
pub(crate) fn uuid_parse(s: &str) -> (r: Result<u128, String>)
    requires
        utf8::encode_utf8(s@).len() == 36,
    ensures
        match r {
            Ok(id) => lowered(s@) == hyphenated(id),
            Err(error) => error@ == "failed to parse a UUID"@ && forall|id: u128|
                lowered(s@) != #[trigger] hyphenated(id),
        },
{
    uuid::Uuid::try_parse(s).map(|id| id.as_u128()).map_err(|error| error.to_string())
}

/// `<uuid::Uuid as Display>::fmt`: the hyphenated form.
#[verifier::external_body]
pub(crate) fn uuid_text(id: u128) -> (r: String)
    ensures
        r@ == hyphenated(id),
{
    uuid::Uuid::from_u128(id).to_string()
}

/// Whether an id is of version 7: its version nibble is the thirteenth.
pub open spec fn is_v7(id: u128) -> bool {
    (id as int / 0x1000_0000_0000_0000_0000) % 16 == 7
}

/// The milliseconds an id of version 7 opens with, in 48 bits.
pub open spec fn v7_millis(id: u128) -> int {
    id as int / 0x1_0000_0000_0000_0000_0000
}

/// `uuid::Uuid::get_version`: whether it answers `SortRand`, which is version 7.
#[verifier::external_body]
pub(crate) fn uuid_is_v7(id: u128) -> (r: bool)
    ensures
        r == is_v7(id),
{
    uuid::Uuid::from_u128(id).get_version() == Some(uuid::Version::SortRand)
}

/// `uuid::Uuid::get_timestamp` of a version 7 id, in whole seconds since 1970.
#[verifier::external_body]
pub(crate) fn uuid_seconds(id: u128) -> (r: u64)
    requires
        is_v7(id),
    ensures
        r == v7_millis(id) / 1000,
{
    let stamp = uuid::Uuid::from_u128(id).get_timestamp();
    stamp.expect("a v7 id carries its timestamp").to_unix().0
}

/// `uuid::Uuid::new_v7` of an instant without a counter: the id is of version 7 and opens with
/// the instant's milliseconds. The rest of it is random and nothing is said of it.
#[verifier::external_body]
pub(crate) fn uuid_new_v7(seconds: u64, nanos: u32) -> (r: u128)
    requires
        nanos < 1_000_000_000,
        seconds <= 253_402_300_799,
    ensures
        is_v7(r),
        v7_millis(r) == seconds * 1000 + nanos as int / 1_000_000,
{
    uuid::Uuid::new_v7(uuid::Timestamp::from_unix(uuid::NoContext, seconds, nanos)).as_u128()
}

/// `time::OffsetDateTime::from_unix_timestamp` and the date it falls on in UTC, up to the end
/// of the year 9999.
#[verifier::external_body]
pub(crate) fn utc_date(seconds: u64) -> (r: Date)
    requires
        seconds <= 253_402_300_799,
    ensures
        r.valid(),
        1970 <= r.year <= 9999,
        r.day_number() == 719_163 + seconds as int / 86_400,
{
    let date = time::OffsetDateTime::from_unix_timestamp(seconds as i64).expect("in range").date();
    Date { year: date.year() as u16, month: u8::from(date.month()), day: date.day() }
}

/// The BLAKE2b digest of 32 bytes.
pub uninterp spec fn blake2b256(message: Seq<u8>) -> Seq<u8>;

/// `blake2::Blake2b` with a 32-byte output.
#[verifier::external_body]
pub(crate) fn blake2b_256(message: &[u8]) -> (r: [u8; 32])
    ensures
        r@ == blake2b256(message@),
{
    <blake2::Blake2b<blake2::digest::consts::U32> as blake2::Digest>::digest(message).into()
}

/// Whether a signature stands over a message under a key, as RFC 8032 has it.
pub uninterp spec fn ed25519_plain(key: Seq<u8>, message: Seq<u8>, signature: Seq<u8>) -> bool;

/// `ed25519_dalek::Verifier::verify` under the key that `from_bytes` makes: whether it accepts.
/// Bytes that are no key accept nothing.
#[verifier::external_body]
pub(crate) fn ed25519_verify(key: &[u8; 32], message: &[u8], signature: &[u8; 64]) -> (r: bool)
    ensures
        r == ed25519_plain(key@, message@, signature@),
        r ==> ed25519_point(key@),
{
    let signature = ed25519_dalek::Signature::from_bytes(signature);
    match ed25519_dalek::VerifyingKey::from_bytes(key) {
        Ok(key) => ed25519_dalek::Verifier::verify(&key, message, &signature).is_ok(),
        Err(_) => false,
    }
}

/// The CBOR item at the head of some bytes, as an encoder writes it, or why there is none.
pub uninterp spec fn cbor_read(blob: Seq<u8>) -> Result<Seq<u8>, Seq<char>>;

/// `ciborium::from_reader` and `ciborium::into_writer`: the item that the bytes open with, written
/// anew, or what the reader says where there is none.
#[verifier::external_body]
pub(crate) fn cbor_item(blob: &[u8]) -> (r: Result<Vec<u8>, String>)
    ensures
        match r {
            Ok(item) => cbor_read(blob@) == Ok::<Seq<u8>, Seq<char>>(item@),
            Err(error) => cbor_read(blob@) == Err::<Seq<u8>, Seq<char>>(error@),
        },
{
    let item: ciborium::Value = ciborium::from_reader(blob).map_err(
        |error: ciborium::de::Error<std::io::Error>| error.to_string(),
    )?;
    let mut encoded: Vec<u8> = Vec::new();
    ciborium::into_writer(&item, &mut encoded).map_err(|error| error.to_string())?;
    Ok(encoded)
}

/// The integer that an item is; nothing for any other item.
pub uninterp spec fn cbor_integer_of(item: Seq<u8>) -> Option<i128>;

/// `ciborium::Value::as_integer` of the item that the bytes open with.
#[verifier::external_body]
pub(crate) fn cbor_integer(item: &[u8]) -> (r: Option<i128>)
    ensures
        r == cbor_integer_of(item@),
{
    let value: ciborium::Value = ciborium::from_reader(item).ok()?;
    value.as_integer().map(i128::from)
}

/// The byte string that an item is; nothing for any other item.
pub uninterp spec fn cbor_bytes_of(item: Seq<u8>) -> Option<Seq<u8>>;

/// `ciborium::Value::as_bytes` of the item that the bytes open with.
#[verifier::external_body]
pub(crate) fn cbor_bytes(item: &[u8]) -> (r: Option<Vec<u8>>)
    ensures
        match r {
            Some(bytes) => cbor_bytes_of(item@) == Some(bytes@),
            None => cbor_bytes_of(item@) is None,
        },
{
    let value: ciborium::Value = ciborium::from_reader(item).ok()?;
    value.as_bytes().cloned()
}

/// The items that an array item holds; nothing for any other item.
pub uninterp spec fn cbor_array_of(item: Seq<u8>) -> Option<Seq<Seq<u8>>>;

/// The views of byte strings.
pub open spec fn byte_views(items: Seq<Vec<u8>>) -> Seq<Seq<u8>> {
    items.map_values(|item: Vec<u8>| item@)
}

/// `ciborium::Value::as_array` of the item that the bytes open with, each element written by
/// `ciborium::into_writer`.
#[verifier::external_body]
pub(crate) fn cbor_array(item: &[u8]) -> (r: Option<Vec<Vec<u8>>>)
    ensures
        match r {
            Some(items) => cbor_array_of(item@) == Some(byte_views(items@)),
            None => cbor_array_of(item@) is None,
        },
{
    let value: ciborium::Value = ciborium::from_reader(item).ok()?;
    let mut items: Vec<Vec<u8>> = Vec::new();
    for element in value.as_array()? {
        let mut encoded: Vec<u8> = Vec::new();
        ciborium::into_writer(element, &mut encoded).ok()?;
        items.push(encoded);
    }
    Some(items)
}

/// The pairs of items that a map item holds, in the order in which it holds them; nothing for any
/// other item.
pub uninterp spec fn cbor_map_of(item: Seq<u8>) -> Option<Seq<(Seq<u8>, Seq<u8>)>>;

/// The views of pairs of byte strings.
pub open spec fn pair_byte_views(items: Seq<(Vec<u8>, Vec<u8>)>) -> Seq<(Seq<u8>, Seq<u8>)> {
    items.map_values(|item: (Vec<u8>, Vec<u8>)| (item.0@, item.1@))
}

/// `ciborium::Value::as_map` of the item that the bytes open with, each key and value written by
/// `ciborium::into_writer`.
#[verifier::external_body]
pub(crate) fn cbor_map(item: &[u8]) -> (r: Option<Vec<(Vec<u8>, Vec<u8>)>>)
    ensures
        match r {
            Some(items) => cbor_map_of(item@) == Some(pair_byte_views(items@)),
            None => cbor_map_of(item@) is None,
        },
{
    let value: ciborium::Value = ciborium::from_reader(item).ok()?;
    let mut items: Vec<(Vec<u8>, Vec<u8>)> = Vec::new();
    for (key, held) in value.as_map()? {
        let mut encoded: (Vec<u8>, Vec<u8>) = (Vec::new(), Vec::new());
        ciborium::into_writer(key, &mut encoded.0).ok()?;
        ciborium::into_writer(held, &mut encoded.1).ok()?;
        items.push(encoded);
    }
    Some(items)
}

/// The encoding of an array of a text and byte strings, where the encoder writes one.
pub uninterp spec fn cbor_array_text(head: Seq<char>, parts: Seq<Seq<u8>>) -> Option<Seq<u8>>;

/// `ciborium::into_writer` of an array that holds a text and then byte strings.
#[verifier::external_body]
pub(crate) fn cbor_encode_array(head: &str, parts: &[Vec<u8>]) -> (r: Option<Vec<u8>>)
    ensures
        match r {
            Some(encoded) => cbor_array_text(head@, byte_views(parts@)) == Some(encoded@),
            None => cbor_array_text(head@, byte_views(parts@)) is None,
        },
{
    let mut items: Vec<ciborium::Value> = vec![ciborium::Value::Text(head.to_string())];
    items.extend(parts.iter().map(|part| ciborium::Value::Bytes(part.clone())));
    let mut encoded: Vec<u8> = Vec::new();
    ciborium::into_writer(&ciborium::Value::Array(items), &mut encoded).ok()?;
    Some(encoded)
}

/// A field of a JSON object: what the reader says where the text is no JSON, nothing where there is
/// no such field, and otherwise the whole number it is, if it is one, and its text.
pub uninterp spec fn json_field_of(s: Seq<char>, field: Seq<char>) -> Result<
    Option<(Option<u64>, Seq<char>)>,
    Seq<char>,
>;

/// The view of a field.
pub open spec fn field_view(found: Option<(Option<u64>, String)>) -> Option<
    (Option<u64>, Seq<char>),
> {
    match found {
        Some((number, shown)) => Some((number, shown@)),
        None => None,
    }
}

/// `serde_json::from_str` into a `serde_json::Value`, and of that `get`, `as_u64` and the text.
#[verifier::external_body]
pub(crate) fn json_field(s: &str, field: &str) -> (r: Result<
    Option<(Option<u64>, String)>,
    String,
>)
    ensures
        match r {
            Ok(found) => json_field_of(s@, field@) == Ok::<
                Option<(Option<u64>, Seq<char>)>,
                Seq<char>,
            >(field_view(found)),
            Err(error) => json_field_of(s@, field@) == Err::<
                Option<(Option<u64>, Seq<char>)>,
                Seq<char>,
            >(error@),
        },
{
    let value: serde_json::Value = serde_json::from_str(s).map_err(
        |error: serde_json::Error| error.to_string(),
    )?;
    Ok(value.get(field).map(|found| (found.as_u64(), found.to_string())))
}

/// The entries of a TOML table of strings, in the order of their keys, or what the reader says of a
/// text that is none.
pub uninterp spec fn toml_strings_of(s: Seq<char>) -> Result<
    Seq<(Seq<char>, Seq<char>)>,
    Seq<char>,
>;

/// The views of pairs of texts.
pub open spec fn text_pair_views(pairs: Seq<(String, String)>) -> Seq<(Seq<char>, Seq<char>)> {
    pairs.map_values(|pair: (String, String)| (pair.0@, pair.1@))
}

/// `toml::from_str` into a sorted map of strings.
#[verifier::external_body]
pub(crate) fn toml_strings(s: &str) -> (r: Result<Vec<(String, String)>, String>)
    ensures
        match r {
            Ok(pairs) => toml_strings_of(s@) == Ok::<Seq<(Seq<char>, Seq<char>)>, Seq<char>>(
                text_pair_views(pairs@),
            ),
            Err(error) => toml_strings_of(s@) == Err::<Seq<(Seq<char>, Seq<char>)>, Seq<char>>(
                error@,
            ),
        },
{
    let table: std::collections::BTreeMap<String, String> = toml::from_str(s).map_err(
        |error| error.to_string(),
    )?;
    Ok(table.into_iter().collect())
}

/// A text as a JSON string, quoted and escaped.
pub uninterp spec fn json_text(s: Seq<char>) -> Seq<char>;

/// `serde_json::Value::to_string` of a string.
#[verifier::external_body]
pub(crate) fn json_string(s: &str) -> (r: String)
    ensures
        r@ == json_text(s@),
{
    serde_json::Value::String(s.to_string()).to_string()
}

/// `std::io::Error`, as the operating system hands it over.
#[verifier::external_type_specification]
#[verifier::external_body]
pub struct ExIoError(std::io::Error);

/// What kind of failure an error is, as far as an accept loop has to tell kinds apart.
pub uninterp spec fn accept_failure_of(error: std::io::Error) -> AcceptFailure;

/// `std::io::Error::kind`, told apart as far as an accept loop has to. The kind is the error's own;
/// which number of the operating system has which kind is not stated.
#[verifier::external_body]
pub(crate) fn accept_failure(error: &std::io::Error) -> (r: AcceptFailure)
    ensures
        r == accept_failure_of(*error),
{
    match error.kind() {
        std::io::ErrorKind::ConnectionAborted => AcceptFailure::ConnectionAborted,
        std::io::ErrorKind::Interrupted => AcceptFailure::Interrupted,
        std::io::ErrorKind::NetworkDown => AcceptFailure::NetworkDown,
        std::io::ErrorKind::NetworkUnreachable => AcceptFailure::NetworkUnreachable,
        std::io::ErrorKind::HostUnreachable => AcceptFailure::HostUnreachable,
        _ => AcceptFailure::Other,
    }
}

/// The URL of a bucket on an endpoint, with the bucket in the path, or why there is none.
pub uninterp spec fn s3_base_of(endpoint: Seq<char>, bucket: Seq<char>) -> Result<
    Seq<char>,
    Seq<char>,
>;

/// `rusty_s3::Bucket::new` in path style, and its `base_url`. The region plays no part in either.
#[verifier::external_body]
pub(crate) fn s3_base(endpoint: &str, bucket: &str, region: &str) -> (r: Result<String, String>)
    ensures
        match r {
            Ok(base) => s3_base_of(endpoint@, bucket@) == Ok::<Seq<char>, Seq<char>>(base@),
            Err(reason) => s3_base_of(endpoint@, bucket@) == Err::<Seq<char>, Seq<char>>(reason@),
        },
{
    let url = url::Url::parse(endpoint).map_err(|error| error.to_string())?;
    let style = rusty_s3::UrlStyle::Path;
    rusty_s3::Bucket::new(url, style, bucket.to_string(), region.to_string())
        .map(|bucket| bucket.base_url().to_string())
        .map_err(|error| error.to_string())
}

/// The URL of an object in a bucket, before it is signed.
pub uninterp spec fn s3_object_of(endpoint: Seq<char>, bucket: Seq<char>, key: Seq<char>) -> Seq<
    char,
>;

/// The URL a PUT of an object is sent to, signed at an instant with the headers beside it.
pub uninterp spec fn s3_put_signed(
    aim: s3::Aim,
    key: Seq<char>,
    headers: Seq<(Seq<char>, Seq<char>)>,
    instant: int,
) -> Seq<char>;

/// `rusty_s3::Bucket::put_object` and `rusty_s3::S3Action::sign`: the URL a PUT of an object is sent
/// to, signed now with the headers beside it. It is the object's own URL with a query behind it.
/// Which instant now is the clock says, so of the instant nothing is stated.
#[verifier::external_body]
pub(crate) fn s3_sign_put(target: &Target, key: &str, headers: &[(&'static str, String)]) -> (r:
    String)
    requires
        s3_base_of(target.endpoint@, target.bucket@) is Ok,
    ensures
        text::begins(r@, s3_object_of(target.endpoint@, target.bucket@, key@) + "?"@),
        exists|instant: int|
            r@ == #[trigger] s3_put_signed(target@, key@, http::header_views(headers@), instant),
{
    let endpoint = url::Url::parse(&target.endpoint).expect("an endpoint");
    let (name, region) = (target.bucket.clone(), target.region.clone());
    let bucket = rusty_s3::Bucket::new(endpoint, rusty_s3::UrlStyle::Path, name, region);
    let bucket = bucket.expect("a bucket");
    let token = target.token.clone().unwrap_or_default();
    let signer = rusty_s3::Credentials::new_with_token(&target.key_id, &target.secret, token);
    let mut action = bucket.put_object(Some(&signer), key);
    for (name, value) in headers {
        rusty_s3::S3Action::headers_mut(&mut action).insert(*name, value.clone());
    }
    let validity = std::time::Duration::from_secs(target.validity_secs);
    rusty_s3::S3Action::sign(&action, validity).to_string()
}

/// The URL an object is asked for at, signed at an instant.
pub uninterp spec fn s3_get_signed(aim: s3::Aim, key: Seq<char>, instant: int) -> Seq<char>;

/// `rusty_s3::Bucket::get_object` and `rusty_s3::S3Action::sign`: the URL an object is asked for at,
/// signed now. It is the object's own URL with a query behind it. Which instant now is the clock
/// says, so of the instant nothing is stated.
#[verifier::external_body]
pub(crate) fn s3_sign_get(target: &Target, key: &str) -> (r: String)
    requires
        s3_base_of(target.endpoint@, target.bucket@) is Ok,
    ensures
        text::begins(r@, s3_object_of(target.endpoint@, target.bucket@, key@) + "?"@),
        exists|instant: int| r@ == #[trigger] s3_get_signed(target@, key@, instant),
{
    let endpoint = url::Url::parse(&target.endpoint).expect("an endpoint");
    let (name, region) = (target.bucket.clone(), target.region.clone());
    let bucket = rusty_s3::Bucket::new(endpoint, rusty_s3::UrlStyle::Path, name, region);
    let bucket = bucket.expect("a bucket");
    let token = target.token.clone().unwrap_or_default();
    let signer = rusty_s3::Credentials::new_with_token(&target.key_id, &target.secret, token);
    let action = bucket.get_object(Some(&signer), key);
    let validity = std::time::Duration::from_secs(target.validity_secs);
    rusty_s3::S3Action::sign(&action, validity).to_string()
}

/// The URL a listing is asked for at, signed at an instant with the query fields it is asked with.
pub uninterp spec fn s3_list_signed(
    aim: s3::Aim,
    fields: Seq<(Seq<char>, Seq<char>)>,
    instant: int,
) -> Seq<char>;

/// `rusty_s3::Bucket::list_objects_v2` and `rusty_s3::S3Action::sign`: the URL a listing is asked
/// for at, signed now with the query fields it is asked with. It is the bucket's own URL with a
/// query behind it. Which instant now is the clock says, so of the instant nothing is stated.
#[verifier::external_body]
pub(crate) fn s3_sign_list(target: &Target, fields: &[(&'static str, String)]) -> (r: String)
    requires
        s3_base_of(target.endpoint@, target.bucket@) is Ok,
    ensures
        text::begins(r@, s3_base_of(target.endpoint@, target.bucket@)->Ok_0 + "?"@),
        exists|instant: int|
            r@ == #[trigger] s3_list_signed(target@, http::header_views(fields@), instant),
{
    let endpoint = url::Url::parse(&target.endpoint).expect("an endpoint");
    let (name, region) = (target.bucket.clone(), target.region.clone());
    let bucket = rusty_s3::Bucket::new(endpoint, rusty_s3::UrlStyle::Path, name, region);
    let bucket = bucket.expect("a bucket");
    let token = target.token.clone().unwrap_or_default();
    let signer = rusty_s3::Credentials::new_with_token(&target.key_id, &target.secret, token);
    let mut action = bucket.list_objects_v2(Some(&signer));
    for (name, value) in fields {
        rusty_s3::S3Action::query_mut(&mut action).insert(*name, value.clone());
    }
    let validity = std::time::Duration::from_secs(target.validity_secs);
    rusty_s3::S3Action::sign(&action, validity).to_string()
}

/// The keys of a listing and the token it goes on from, or what its reader says of a text that is
/// no listing.
pub uninterp spec fn s3_listing_of(s: Seq<char>) -> Result<
    (Seq<Seq<char>>, Option<Seq<char>>),
    Seq<char>,
>;

/// `rusty_s3::actions::ListObjectsV2::parse_response`, of which the keys and the continuation token
/// are taken.
#[verifier::external_body]
pub(crate) fn s3_listing(s: &str) -> (r: Result<(Vec<String>, Option<String>), String>)
    ensures
        match r {
            Ok((keys, next)) => s3_listing_of(s@) == Ok::<
                (Seq<Seq<char>>, Option<Seq<char>>),
                Seq<char>,
            >((text::views(keys@), text::view_of(next))),
            Err(reason) => s3_listing_of(s@) == Err::<
                (Seq<Seq<char>>, Option<Seq<char>>),
                Seq<char>,
            >(reason@),
        },
{
    let read = rusty_s3::actions::ListObjectsV2::parse_response(s).map_err(
        |error| error.to_string(),
    )?;
    let keys = read.contents.into_iter().map(|object| object.key).collect();
    Ok((keys, read.next_continuation_token))
}

/// The text of a field of a TOML document, nothing where it has none or another kind of value, or
/// what the reader says of a text that is no TOML.
pub uninterp spec fn toml_text_of(s: Seq<char>, field: Seq<char>) -> Result<
    Option<Seq<char>>,
    Seq<char>,
>;

/// `toml::from_str` into a `toml::Table`, and of that `get` and `toml::Value::as_str`.
#[verifier::external_body]
pub(crate) fn toml_text(s: &str, field: &str) -> (r: Result<Option<String>, String>)
    ensures
        match r {
            Ok(value) => toml_text_of(s@, field@) == Ok::<Option<Seq<char>>, Seq<char>>(
                text::view_of(value),
            ),
            Err(error) => toml_text_of(s@, field@) == Err::<Option<Seq<char>>, Seq<char>>(error@),
        },
{
    let table: toml::Table = toml::from_str(s).map_err(|error| error.to_string())?;
    Ok(table.get(field).and_then(toml::Value::as_str).map(str::to_string))
}

/// The host and the port that a URL states; nothing where the text is no URL.
pub uninterp spec fn url_host_port_of(s: Seq<char>) -> Option<(Option<Seq<char>>, Option<u16>)>;

/// `url::Url::parse`, and of that `host_str` and `port`.
#[verifier::external_body]
pub(crate) fn url_host_port(s: &str) -> (r: Option<(Option<String>, Option<u16>)>)
    ensures
        match r {
            Some((host, port)) => url_host_port_of(s@) == Some((text::view_of(host), port)),
            None => url_host_port_of(s@) is None,
        },
{
    let url = url::Url::parse(s).ok()?;
    Some((url.host_str().map(str::to_string), url.port()))
}

/// A URL as it is written once it was parsed, or what the parser says of a text that is none.
pub uninterp spec fn url_text_of(s: Seq<char>) -> Result<Seq<char>, Seq<char>>;

/// `url::Url::parse`, and of that the text.
#[verifier::external_body]
pub(crate) fn url_text(s: &str) -> (r: Result<String, String>)
    ensures
        match r {
            Ok(url) => url_text_of(s@) == Ok::<Seq<char>, Seq<char>>(url@),
            Err(error) => url_text_of(s@) == Err::<Seq<char>, Seq<char>>(error@),
        },
{
    url::Url::parse(s).map(|url| url.to_string()).map_err(|error| error.to_string())
}

/// A path joined onto a URL; nothing where the text is no URL or a path does not join onto it.
pub uninterp spec fn url_joined_of(base: Seq<char>, path: Seq<char>) -> Option<Seq<char>>;

/// `url::Url::join` onto what `url::Url::parse` makes of the base.
#[verifier::external_body]
pub(crate) fn url_join(base: &str, path: &str) -> (r: Option<String>)
    ensures
        text::view_of(r) == url_joined_of(base@, path@),
{
    Some(url::Url::parse(base).ok()?.join(path).ok()?.to_string())
}

/// The SHA-256 digest.
pub uninterp spec fn sha256_of(message: Seq<u8>) -> Seq<u8>;

/// `sha2::Sha256::digest`.
#[verifier::external_body]
pub(crate) fn sha256(message: &[u8]) -> (r: [u8; 32])
    ensures
        r@ == sha256_of(message@),
{
    <sha2::Sha256 as sha2::Digest>::digest(message).into()
}

/// The key that a seed makes.
pub uninterp spec fn ed25519_public_of(seed: Seq<u8>) -> Seq<u8>;

/// `ed25519_dalek::SigningKey::from_bytes` and its `verifying_key`: the public half of the key that
/// a seed makes, which is a key.
#[verifier::external_body]
pub(crate) fn ed25519_public(seed: &[u8; 32]) -> (r: [u8; 32])
    ensures
        r@ == ed25519_public_of(seed@),
        ed25519_refusal(r@) is None,
{
    ed25519_dalek::SigningKey::from_bytes(seed).verifying_key().to_bytes()
}

}
