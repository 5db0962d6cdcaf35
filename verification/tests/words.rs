//! Texts, bytes, paths and keys on concrete values.

use ed25519_dalek::{Signer, SigningKey};
use metsuke::hex;
use metsuke::hex::HexError;
use metsuke::key::{Kind, ObjectName, LAST_SECOND};
use metsuke::names::Names;
use metsuke::path;
use metsuke::percent;
use metsuke::search;
use metsuke::table::Table;
use metsuke::text;
use metsuke::wire::agent::AgentId;
use metsuke::wire::attestation::{
    Attestation, HeaderError, HEADER_SIGNATURE, HEADER_VKEY, LEIOS_KEY_BYTES, LEIOS_SIGNATURE_BYTES,
};
use metsuke::wire::envelope::{split, ContainerError, SKIPPABLE_MAGIC};
use metsuke::wire::moment::{Moment, FURTHEST};
use metsuke::wire::pool::{PoolId, PoolIdError};
use metsuke::wire::signing::{Signature, VerifyingKey};

fn seed(byte: u8) -> SigningKey {
    SigningKey::from_bytes(&[byte; 32])
}

fn vkey(key: &SigningKey) -> VerifyingKey {
    VerifyingKey::from_bytes(&key.verifying_key().to_bytes()).expect("a seed makes a key")
}

fn pool(byte: u8) -> PoolId {
    PoolId::from_cold_key(&vkey(&seed(byte)))
}

fn agent(slug: &str) -> AgentId {
    AgentId::parse(slug).expect("a slug")
}

#[test]
fn hex_reads_back_and_refuses_what_is_not_hex() {
    assert_eq!(hex::encode(&[0x00, 0x0f, 0xa5, 0xff]), "000fa5ff");
    assert_eq!(hex::decode_bytes("000fa5ff"), Ok(vec![0x00, 0x0f, 0xa5, 0xff]));
    assert_eq!(hex::decode_bytes("00FF"), Ok(vec![0x00, 0xff]));
    assert_eq!(hex::decode_bytes("0g"), Err(HexError::NotHex));
    assert_eq!(
        hex::decode("00ff", 3),
        Err(HexError::WrongLength {
            found: 2,
            expected: 3
        })
    );
}

#[test]
fn a_query_value_reads_back_and_holds_no_separator() {
    let value = "v1/2026-08-27 & ué=%";
    let escaped = percent::escaped(value);
    assert!(!escaped.contains('&') && !escaped.contains('=') && !escaped.contains('?'));
    assert_eq!(percent::percent_decoded(&escaped), Some(value.to_string()));
    assert_eq!(percent::escaped("a b"), "a%20b");
    // What is no escape stands for itself.
    assert_eq!(percent::percent_decoded("%zz"), Some("%zz".to_string()));
    assert_eq!(percent::percent_decoded("%ff"), None);
    assert_eq!(percent::percent_decoded("a%2Fb"), Some("a/b".to_string()));
}

#[test]
fn a_relative_path_stays_below_its_base() {
    for below in ["a", "a/b.c", "a/./b"] {
        assert!(path::is_below(below), "{below}");
    }
    for outside in ["", "/a", "..", "a/../b", "./a"] {
        assert!(!path::is_below(outside), "{outside}");
    }
    assert_eq!(path::join("/srv", "a/b"), "/srv/a/b");
    assert_eq!(path::join("/srv/", "a"), "/srv/a");
    assert_eq!(path::parent("/srv/a"), Some("/srv".to_string()));
    assert_eq!(path::file_name("/srv/a.staged"), Some("a.staged".to_string()));
    assert_eq!(path::file_name("/"), None);
    assert!(path::is_absolute("/a") && !path::is_absolute("a"));
}

#[test]
fn a_text_is_searched_from_its_start() {
    assert_eq!(
        search::split_once("a<!-- b <!-- c", "<!-- "),
        Some(("a".to_string(), "b <!-- c".to_string()))
    );
    assert_eq!(search::split_once("abc", "x"), None);
    assert_eq!(search::split("a, b, c", ", "), vec!["a", "b", "c"]);
    assert_eq!(search::replace("aXbX", "X", "--"), "a--b--");
    assert_eq!(search::replace("ab", "X", "--"), "ab");
    assert_eq!(search::lines("a\nb\r\n\nc"), vec!["a", "b", "", "c"]);
    assert_eq!(search::words("  ExecStart= \t x y"), vec!["ExecStart=", "x", "y"]);
    assert_eq!(search::trim_end("x \n\t"), "x");
}

#[test]
fn numbers_are_read_and_written_in_decimal() {
    assert_eq!(text::decimal_of(0), "0");
    assert_eq!(text::decimal_of(340_282_366_920_938_463_463_374_607_431_768_211_455),
        "340282366920938463463374607431768211455");
    assert_eq!(text::number_of("18446744073709551615", u64::MAX), Some(u64::MAX));
    assert_eq!(text::number_of("18446744073709551616", u64::MAX), None);
    assert_eq!(text::number_of("", u64::MAX), None);
    assert_eq!(text::number_of("-1", u64::MAX), None);
    assert!(text::same_ignoring_case("Content-Length", "content-length"));
    assert!(text::precedes("v1/a", "v1/b") && !text::precedes("v1/b", "v1/b"));
}

#[test]
fn a_set_of_names_holds_each_once_and_in_order() {
    let mut names = Names::of(&["b".to_string(), "a".to_string(), "b".to_string()]);
    assert_eq!(names.len(), 2);
    names.insert("c");
    assert_eq!(
        (0..names.len()).map(|i| names.at(i)).collect::<Vec<_>>(),
        vec!["a", "b", "c"]
    );
    assert!(names.contains("c") && !names.contains("d"));
}

#[test]
fn a_table_answers_with_what_was_put_in_last() {
    let mut table: Table<u32> = Table::new();
    table.insert(b"one", 1);
    table.insert(b"two", 2);
    table.insert(b"one", 11);
    assert_eq!(table.get(b"one"), Some(&11));
    assert_eq!(table.get(b"three"), None);
    assert_eq!(table.len(), 2);
}

/// The hash is BLAKE2b over the key with a 28-byte output, and the text is bech32 under `pool`.
#[test]
fn a_pool_is_its_cold_keys_hash() {
    let key = seed(7).verifying_key().to_bytes();
    let hash: [u8; 28] =
        <blake2::Blake2b<blake2::digest::consts::U28> as blake2::Digest>::digest(key).into();
    let id = pool(7);
    assert_eq!(*id.as_hash(), hash);
    let spelled = id.to_bech32();
    assert!(spelled.starts_with("pool1"), "{spelled}");
    assert_eq!(PoolId::from_bech32(&spelled).expect("it reads back"), id);
    assert_eq!(PoolId::from_hex(&hex::encode(&hash)).expect("its hash"), id);
}

#[test]
fn each_way_to_be_no_pool_is_told_apart() {
    let spelled = pool(7).to_bech32();
    let mut bent = spelled.clone();
    let last = bent.pop().expect("not empty");
    bent.push(if last == 'q' { 'p' } else { 'q' });
    assert!(matches!(
        PoolId::from_bech32(&bent),
        Err(PoolIdError::NotBech32 { .. })
    ));
    let hrp = bech32::Hrp::parse("addr").expect("four letters");
    let other = bech32::encode::<bech32::Bech32>(hrp, &[1u8; 28]).expect("it encodes");
    assert!(matches!(
        PoolId::from_bech32(&other),
        Err(PoolIdError::Prefix { .. })
    ));
    let hrp = bech32::Hrp::parse("pool").expect("four letters");
    let short = bech32::encode::<bech32::Bech32>(hrp, &[1u8; 27]).expect("it encodes");
    assert!(matches!(
        PoolId::from_bech32(&short),
        Err(PoolIdError::Length { bytes: 27 })
    ));
    assert!(matches!(PoolId::from_hex("zz"), Err(PoolIdError::NotHex)));
}

#[test]
fn an_agent_is_named_by_a_slug() {
    for slug in ["relay-1", "a", "0"] {
        assert_eq!(agent(slug).as_str(), slug);
    }
    for other in ["", "Relay", "relay_1", "a b", "é"] {
        let error = AgentId::parse(other).expect_err("no slug");
        assert_eq!(error.found, other);
    }
}

/// The folder is the UTC day of the instant the id was stamped at.
#[test]
fn a_key_reads_back_as_the_name_it_was_made_of() {
    let name = ObjectName::stamped(1_755_000_000, 999_999_999, pool(7), agent("relay-1"), Kind::Logs);
    let key = name.to_key();
    assert!(key.starts_with("v1/2025-08-12/"), "{key}");
    assert!(
        key.ends_with(&format!("-{}-relay-1-logs.jsonl.zst", pool(7).to_bech32())),
        "{key}"
    );
    assert_eq!(ObjectName::parse(&key).expect("a key"), name);
    let id = uuid::Uuid::from_u128(name.id);
    assert_eq!(id.get_version_num(), 7);
    assert_eq!(
        id.get_timestamp().expect("a stamp").to_unix(),
        (1_755_000_000, 999_000_000)
    );
    assert_eq!(name.date().to_folder(), "2025-08-12");
}

#[test]
fn later_objects_sort_behind_earlier_ones() {
    let earlier = ObjectName::stamped(951_782_399, 0, pool(7), agent("a"), Kind::Logs).to_key();
    let later = ObjectName::stamped(951_782_400, 0, pool(9), agent("b"), Kind::Logs).to_key();
    assert!(earlier.starts_with("v1/2000-02-28/") && later.starts_with("v1/2000-02-29/"));
    assert!(earlier < later);
    let last = ObjectName::stamped(LAST_SECOND, 0, pool(7), agent("a"), Kind::Metrics).to_key();
    assert!(last.starts_with("v1/9999-12-31/"), "{last}");
}

/// An id that no folder can date is refused, but only once the rest of the key was read.
#[test]
fn an_id_past_the_last_year_is_refused_last() {
    let key = |kind: &str| {
        format!(
            "v1/9999-12-31/ffffffff-ffff-7000-8000-000000000000-{}-relay-1-{kind}.jsonl.zst",
            pool(7).to_bech32()
        )
    };
    let reason = |kind: &str| ObjectName::parse(&key(kind)).expect_err("no day").reason;
    assert_eq!(reason("traces"), "\"traces\" is not a payload kind");
    assert_eq!(
        reason("logs"),
        "id ffffffff-ffff-7000-8000-000000000000 is stamped past the year 9999"
    );
}

#[test]
fn a_key_that_names_no_object_is_refused() {
    let key = ObjectName::stamped(1_755_000_000, 0, pool(7), agent("relay-1"), Kind::Logs).to_key();
    for bent in [
        key.replacen("v1/", "v2/", 1),
        key.replacen("2025-08-12", "2025-08-13", 1),
        key.replacen("-logs", "-traces", 1),
        key.replacen(".zst", "", 1),
        key.replacen("pool1", "pool2", 1),
        key.to_uppercase(),
        String::new(),
    ] {
        let error = ObjectName::parse(&bent).expect_err("not a key");
        assert!(error.message().contains("archive object key"), "{bent}");
    }
    assert_eq!(Kind::parse("traces"), None);
    assert_eq!(Kind::of(1), Some(Kind::Metrics));
    assert_eq!(Kind::of(2), Some(Kind::Logs));
    assert_eq!(Kind::of(3), None);
}

#[test]
fn a_submission_comes_apart_as_it_was_put_together() {
    let mut wire = SKIPPABLE_MAGIC.to_le_bytes().to_vec();
    wire.extend(3u32.to_le_bytes());
    wire.extend(b"abcdef");
    assert_eq!(split(&wire, 3), Ok((b"abc".to_vec(), b"def".to_vec())));
    assert_eq!(
        split(&wire, 2),
        Err(ContainerError::Oversized {
            declared: 3,
            max: 2
        })
    );
    assert_eq!(split(&wire[..7], 9), Err(ContainerError::Short { found: 7 }));
    assert_eq!(
        split(&wire[..10], 9),
        Err(ContainerError::Truncated {
            declared: 3,
            found: 2
        })
    );
    wire[0] = 0;
    assert!(matches!(
        split(&wire, 9),
        Err(ContainerError::NotAFrame { .. })
    ));
    for error in [
        ContainerError::Short { found: 7 },
        ContainerError::NotAFrame { magic: 0 },
        ContainerError::Oversized {
            declared: 3,
            max: 2,
        },
        ContainerError::Truncated {
            declared: 3,
            found: 2,
        },
    ] {
        assert!(!error.message().is_empty());
    }
}

#[test]
fn a_signature_stands_over_the_bytes_it_was_made_for() {
    let key = seed(7);
    let signature = key.sign(b"message").to_bytes();
    let attestation = Attestation::decode(
        Some(&hex::encode(&key.verifying_key().to_bytes())),
        Some(&hex::encode(&signature)),
    )
    .expect("a pair");
    assert!(attestation.verifies(b"message", false));
    assert!(!attestation.verifies(b"massage", true));
    assert_eq!(attestation.attributes(), Some(pool(7)));
    assert!(vkey(&key).verify_strict(b"message", &Signature::from_bytes(&signature)));
    assert!(!vkey(&seed(9)).verify_strict(b"message", &Signature::from_bytes(&signature)));
}

/// A Leios pair is told from a cold one by its sizes, and names no pool.
#[test]
fn a_leios_pair_names_no_pool() {
    let attestation = Attestation::decode(
        Some(&hex::encode(&[1u8; LEIOS_KEY_BYTES])),
        Some(&hex::encode(&[2u8; LEIOS_SIGNATURE_BYTES])),
    )
    .expect("a pair");
    assert_eq!(attestation.attributes(), None);
    assert!(attestation.verifies(b"anything", true) && !attestation.verifies(b"anything", false));
}

#[test]
fn each_header_that_does_not_decode_is_named() {
    let good = hex::encode(&seed(7).verifying_key().to_bytes());
    let signature = hex::encode(&[0u8; 64]);
    assert!(matches!(
        Attestation::decode(None, Some(&signature)),
        Err(HeaderError::Missing {
            header: HEADER_VKEY
        })
    ));
    assert!(matches!(
        Attestation::decode(Some(&good), None),
        Err(HeaderError::Missing {
            header: HEADER_SIGNATURE
        })
    ));
    assert!(matches!(
        Attestation::decode(Some("zz"), Some(&signature)),
        Err(HeaderError::NotHex {
            header: HEADER_VKEY
        })
    ));
    assert!(matches!(
        Attestation::decode(Some("00"), Some(&signature)),
        Err(HeaderError::WrongLength { .. })
    ));
    // No point of the curve has this encoding.
    let mut point = [0u8; 32];
    point[0] = 2;
    let error = Attestation::decode(Some(&hex::encode(&point)), Some(&signature))
        .expect_err("not a point");
    assert!(
        matches!(&error, HeaderError::Vkey { .. }),
        "{}",
        error.message()
    );
    assert!(Attestation::from_headers(Some("zz"), Some(&signature)).is_none());
}

#[test]
fn a_moment_is_on_the_calendar() {
    let moment = Moment::new(1_755_000_000_000_000_000, "then".to_string()).expect("in range");
    assert_eq!(moment.nanos(), 1_755_000_000_000_000_000);
    assert_eq!(moment.shown(), "then");
    assert!(Moment::new(FURTHEST + 1, String::new()).is_none());
    assert!(Moment::new(-FURTHEST - 1, String::new()).is_none());
}
