//! Whose an upload is, whether it is taken in, what it is filed as, and what an audit finds of it.

use ed25519_dalek::{Signer, SigningKey};
use metsuke::count::{NonZeroU32, NonZeroU64};
use metsuke::hex;
use metsuke::key::{Kind, ObjectName};
use metsuke::server::applications::{ApplicationCode, ApplicationCodeError, Codes};
use metsuke::server::archive::{
    bounded, page, root_found, unreadable, ArchiveError, FetchedObject, FilesystemArchive, Opened,
    StoredSubmission,
};
use metsuke::server::authority::{Attributed, AttributionError, Unauthorised};
use metsuke::server::config::{AbsolutePath, IngestConfig};
use metsuke::server::intake::{stored, IngestError, Intake, Rejection};
use metsuke::server::ratelimit::{Charged, RateLimiter};
use metsuke::server::roster::{
    ListedKey, Roster, RosterError, RosterFile, Stamp, Unreadable,
};
use metsuke::server::verify::{
    verify, Audit, AuditError, AuditFailure, Checked, VerifyError,
};
use metsuke::wire::agent::AgentId;
use metsuke::wire::attestation::{Attestation, LeiosPublicKey};
use metsuke::wire::envelope::{ContainerError, Header, Provenance, SKIPPABLE_MAGIC};
use metsuke::wire::moment::Moment;
use metsuke::wire::pool::PoolId;
use metsuke::wire::signing::VerifyingKey;

const NOW: i128 = 1_755_000_000;

fn seconds(at: i128) -> Moment {
    Moment::new(at * 1_000_000_000, format!("second {at}")).expect("on the calendar")
}

fn n32(value: u32) -> NonZeroU32 {
    NonZeroU32::new(value).expect("above zero")
}

fn n64(value: u64) -> NonZeroU64 {
    NonZeroU64::new(value).expect("above zero")
}

fn cold(byte: u8) -> SigningKey {
    SigningKey::from_bytes(&[byte; 32])
}

fn pool(byte: u8) -> PoolId {
    let key = VerifyingKey::from_bytes(&cold(byte).verifying_key().to_bytes()).expect("a key");
    PoolId::from_cold_key(&key)
}

fn agent(slug: &str) -> AgentId {
    AgentId::parse(slug).expect("a slug")
}

fn sealed(header: &[u8]) -> Vec<u8> {
    let mut wire = SKIPPABLE_MAGIC.to_le_bytes().to_vec();
    wire.extend((header.len() as u32).to_le_bytes());
    wire.extend(header);
    wire.extend(b"data");
    wire
}

fn header(schema_version: u32, slug: &str, sealed_at: i128) -> Result<Header, String> {
    Ok(Header {
        schema_version,
        provenance: Provenance {
            pool_id: pool(7),
            agent_id: agent(slug),
        },
        timestamp: seconds(sealed_at),
    })
}

/// What a cold key presents beside the bytes it signed.
fn attributed(byte: u8, wire: &[u8]) -> Attributed {
    Attributed::decode(
        Some(&hex::encode(&cold(byte).verifying_key().to_bytes())),
        Some(&hex::encode(&cold(byte).sign(wire).to_bytes())),
        None,
    )
    .expect("a pair")
}

fn leios(byte: u8, pool_id: PoolId) -> Attributed {
    Attributed::decode(
        Some(&hex::encode(&[byte; 96])),
        Some(&hex::encode(&[0u8; 48])),
        Some(&pool_id.to_bech32()),
    )
    .expect("a pair")
}

fn intake(uploads: u32, total: u32, roster: Option<Roster>) -> Intake {
    let mut allowlist = Codes::new();
    for byte in [7u8, 9u8] {
        allowlist.insert(
            pool(byte).as_hash(),
            ApplicationCode::parse("CODE-1").expect("a code"),
        );
    }
    Intake::new(
        IngestConfig {
            allowlist,
            leios_roster: None,
            max_body_bytes: n64(100),
            max_header_bytes: n64(40),
            max_timestamp_skew_secs: n32(60),
            rate_limit_uploads: n32(uploads),
            rate_limit_uploads_total: n32(total),
            rate_limit_window_secs: n32(3600),
        },
        roster,
    )
}

/// A key that a verifier has nothing against.
fn listed(text: &str) -> ListedKey {
    ListedKey {
        text: text.to_string(),
        refusal: None,
    }
}

fn roster() -> Roster {
    Roster::read_file(
        "/run/roster.json",
        &RosterFile {
            epoch: 500,
            slot: 123,
            pools: vec![(
                hex::encode(pool(7).as_hash()),
                vec![
                    listed(&hex::encode(&[1u8; 96])),
                    listed(&hex::encode(&[2u8; 96])),
                ],
            )],
        },
        None,
    )
    .expect("a roster")
}

#[test]
fn an_accepted_upload_is_filed_under_what_it_says_of_itself() {
    let wire = sealed(b"{}");
    let presented = attributed(7, &wire);
    let signed = presented.over(&wire);
    let mut intake = intake(10, 10, None);
    assert_eq!(intake.screen(&signed, false).expect("it stands"), b"{}");
    let filed = intake
        .submit(&signed, false, header(2, "relay-1", NOW), &seconds(NOW))
        .expect("every check passes");
    assert_eq!(filed.name.pool_id, pool(7));
    assert_eq!(filed.name.agent_id, agent("relay-1"));
    assert_eq!(filed.name.kind, Kind::Logs);
    assert!(filed.object_key().starts_with("v1/2025-08-12/"));
    let (ack, line) = stored(&filed, Ok(()), "0.3.0").expect("it was stored");
    assert_eq!(ack.latest_version, "0.3.0");
    assert_eq!(
        line,
        format!("<6>accepted {}, {} bytes", filed.object_key(), wire.len())
    );
    let error = stored(
        &filed,
        Err(ArchiveError::Io {
            key: "k".to_string(),
            reason: "disk full".to_string(),
        }),
        "0.3.0",
    )
    .expect_err("it was not");
    assert_eq!(error.message(), "archive unavailable: storing k: disk full");
    assert!(matches!(error, IngestError::Archive(_)));
}

#[test]
fn each_check_refuses_in_its_order() {
    let wire = sealed(b"{}");
    let presented = attributed(7, &wire);
    let now = seconds(NOW);
    let refusal = |intake: &mut Intake, presented: &Attributed, wire: &[u8], said| {
        intake
            .submit(&presented.over(wire), false, said, &now)
            .expect_err("one check refuses")
    };

    let big = vec![0u8; 101];
    assert!(matches!(
        refusal(&mut intake(1, 1, None), &presented, &big, header(1, "a", NOW)),
        Rejection::OversizedBody {
            found: 101,
            max: 100
        }
    ));
    assert!(matches!(
        refusal(&mut intake(1, 1, None), &presented, b"short", header(1, "a", NOW)),
        Rejection::NotASubmission(ContainerError::Short { found: 5 })
    ));
    assert!(matches!(
        refusal(&mut intake(1, 1, None), &presented, &sealed(&[b' '; 41]), header(1, "a", NOW)),
        Rejection::NotASubmission(ContainerError::Oversized { .. })
    ));
    let stranger = attributed(11, &wire);
    let error = refusal(&mut intake(1, 1, None), &stranger, &wire, header(1, "a", NOW));
    assert_eq!(
        error.message(),
        format!("pool {} is not on the allowlist", pool(11).to_bech32())
    );
    assert!(matches!(
        refusal(&mut intake(1, 1, None), &leios(1, pool(7)), &wire, header(1, "a", NOW)),
        Rejection::Unauthorised(Unauthorised::NoRoster)
    ));
    assert!(matches!(
        refusal(&mut intake(1, 1, Some(roster())), &leios(3, pool(7)), &wire, header(1, "a", NOW)),
        Rejection::Unauthorised(Unauthorised::Unregistered { .. })
    ));
    assert!(matches!(
        refusal(&mut intake(1, 1, Some(roster())), &leios(1, pool(7)), &wire, header(1, "a", NOW)),
        Rejection::BadSignature
    ));
    let error = refusal(
        &mut intake(1, 1, None),
        &presented,
        &wire,
        Err("expected value".to_string()),
    );
    assert_eq!(error.message(), "header frame does not read: expected value");
    let error = refusal(
        &mut intake(1, 1, None),
        &presented,
        &wire,
        header(1, "a", NOW - 61),
    );
    assert_eq!(
        error.message(),
        "sealed at second 1754999939, and this server's clock reads second 1755000000: over the \
         60s either way that a submission may be sealed from"
    );
    assert!(matches!(
        refusal(&mut intake(1, 1, None), &presented, &wire, header(1, "a", NOW + 61)),
        Rejection::StaleTimestamp { .. }
    ));
    let error = refusal(&mut intake(1, 1, None), &presented, &wire, header(3, "a", NOW));
    assert_eq!(
        error.message(),
        "schema v3 names no <metrics|logs> segment, so no key can be formed"
    );
}

/// A Leios key that the roster lists speaks for its pool and for no other.
#[test]
fn a_listed_leios_key_speaks_for_its_pool_alone() {
    let wire = sealed(b"{}");
    let mut taking = intake(10, 10, Some(roster()));
    let presented = leios(1, pool(7));
    let filed = taking
        .submit(&presented.over(&wire), true, header(1, "a", NOW), &seconds(NOW))
        .expect("listed, and its signature stands");
    assert_eq!(filed.name.pool_id, pool(7));
    let presented = leios(1, pool(9));
    assert!(matches!(
        taking.submit(&presented.over(&wire), true, header(1, "a", NOW), &seconds(NOW)),
        Err(Rejection::Unauthorised(Unauthorised::Unregistered { pool_id })) if pool_id == pool(9)
    ));
}

/// Only what every check before it passed is charged.
#[test]
fn a_refused_upload_charges_nothing() {
    let wire = sealed(b"{}");
    let mut taking = intake(1, 1, None);
    let forged = attributed(7, b"other bytes");
    let now = seconds(NOW);
    for _ in 0..3 {
        assert!(matches!(
            taking.submit(&forged.over(&wire), false, header(1, "a", NOW), &now),
            Err(Rejection::BadSignature)
        ));
    }
    let honest = attributed(7, &wire);
    for _ in 0..3 {
        assert!(taking
            .submit(&honest.over(&wire), false, header(1, "a", NOW - 600), &now)
            .is_err());
    }
    assert!(taking
        .submit(&honest.over(&wire), false, header(1, "a", NOW), &now)
        .is_ok());
    let error = taking
        .submit(&honest.over(&wire), false, header(1, "a", NOW), &now)
        .expect_err("one upload per window");
    assert_eq!(
        error.message(),
        format!(
            "pool {} is over its limit of 1 uploads per 3600s",
            pool(7).to_bech32()
        )
    );
    let other = attributed(9, &wire);
    let error = taking
        .submit(&other.over(&wire), false, header(1, "a", NOW), &now)
        .expect_err("the shared window is full");
    assert_eq!(
        error.message(),
        "the server is over its limit of 1 uploads per 3600s"
    );
}

#[test]
fn a_window_allows_its_budget_and_restarts() {
    let mut limiter = RateLimiter::new(n32(2), n32(3), n32(10));
    let charged: Vec<Charged> = [0, 1, 9]
        .iter()
        .map(|after| limiter.charge(pool(7), &seconds(NOW + after)))
        .collect();
    assert_eq!(
        charged,
        vec![Charged::Allowed, Charged::Allowed, Charged::PoolIsOver]
    );
    // Over its own budget it spends nothing of the shared one.
    assert_eq!(limiter.charge(pool(9), &seconds(NOW + 9)), Charged::Allowed);
    assert_eq!(
        limiter.charge(pool(9), &seconds(NOW + 9)),
        Charged::ServerIsOver
    );
    assert_eq!(limiter.charge(pool(7), &seconds(NOW + 10)), Charged::Allowed);
}

#[test]
fn the_headers_attribute_an_upload() {
    let key = hex::encode(&cold(7).verifying_key().to_bytes());
    let signature = hex::encode(&[0u8; 64]);
    let own = pool(7).to_bech32();
    let found = Attributed::decode(Some(&key), Some(&signature), Some(&own)).expect("its pool");
    assert_eq!(found.pool_id(), pool(7));
    let other = pool(9).to_bech32();
    let error = Attributed::decode(Some(&key), Some(&signature), Some(&other))
        .expect_err("another pool's name");
    assert!(matches!(error, AttributionError::NotItsPool { .. }));
    assert!(error.message().contains("the two have to agree"));
    let error =
        Attributed::decode(Some(&key), Some(&signature), Some("pool1")).expect_err("no pool");
    assert!(error.message().starts_with("x-metsuke-pool is not a pool id: "));
    assert!(matches!(error, AttributionError::NotAPoolId(_)));
    let error = Attributed::decode(
        Some(&hex::encode(&[1u8; 96])),
        Some(&hex::encode(&[0u8; 48])),
        None,
    )
    .expect_err("a Leios key names no pool");
    assert!(matches!(error, AttributionError::Unnamed));
    assert!(matches!(
        Attributed::decode(None, Some(&signature), None),
        Err(AttributionError::Attestation(_))
    ));
}

#[test]
fn a_roster_says_what_is_wrong_with_its_file() {
    let read = |pools| {
        Roster::read_file(
            "/r.json",
            &RosterFile {
                epoch: 1,
                slot: 2,
                pools,
            },
            None,
        )
    };
    let held = roster();
    let key = |byte| LeiosPublicKey {
        bytes: vec![byte; 96],
    };
    assert!(held.registers(pool(7), &key(2)) && !held.registers(pool(7), &key(3)));
    assert!(!held.registers(pool(9), &key(1)));
    assert_eq!(held.position(), (500, 123));
    let error = read(vec![("nope".to_string(), vec![])]).expect_err("no pool");
    assert!(error
        .message()
        .starts_with("the Leios key roster /r.json is keyed by \"nope\", which is not a pool id: "));
    let error = read(vec![(
        hex::encode(pool(7).as_hash()),
        vec![listed(&hex::encode(&[1u8; 96])), listed("00")],
    )])
    .expect_err("no key");
    assert!(matches!(error.kind, Unreadable::NotHex { at: 1, .. }));
    assert!(error.message().contains(&pool(7).to_bech32()));
}

/// Bytes of a key's length that are no key refuse the whole roster, and the place is named. What is
/// not hex is refused as that, whatever else is said of it.
#[test]
fn a_roster_that_lists_no_key_is_refused() {
    let refused = |text: &str| ListedKey {
        text: text.to_string(),
        refusal: Some("not a point on the curve".to_string()),
    };
    let read = |keys| {
        Roster::read_file(
            "/r.json",
            &RosterFile {
                epoch: 1,
                slot: 2,
                pools: vec![(hex::encode(pool(7).as_hash()), keys)],
            },
            None,
        )
        .expect_err("no key")
    };
    let error = read(vec![
        listed(&hex::encode(&[1u8; 96])),
        refused(&hex::encode(&[0u8; 96])),
        listed("zz"),
    ]);
    assert!(matches!(&error.kind, Unreadable::NotAKey { at: 1, .. }));
    assert_eq!(
        error.message(),
        format!(
            "the Leios key roster /r.json lists a key 1 for pool {} that is no key: not a point on \
             the curve",
            pool(7).to_bech32()
        )
    );
    assert!(matches!(
        read(vec![refused("zz")]).kind,
        Unreadable::NotHex { at: 0, .. }
    ));
}

/// A re-read that failed keeps what is loaded, and says so.
#[test]
fn a_failed_reload_keeps_the_roster() {
    let mut held = roster();
    let line = held.reloaded(Err(RosterError {
        path: "/r.json".to_string(),
        kind: Unreadable::Read {
            reason: "gone".to_string(),
        },
    }));
    assert_eq!(
        line,
        "<4>the Leios key roster /r.json cannot be read: gone; keeping the roster already loaded"
    );
    assert_eq!(held.position(), (500, 123));
    let stamp = Stamp {
        modified: 5,
        len: 10,
    };
    assert!(held.is_stale(Some(stamp)) && held.is_stale(None));
    let fresh = Roster::read_file(
        "/r.json",
        &RosterFile {
            epoch: 501,
            slot: 456,
            pools: vec![],
        },
        Some(stamp),
    )
    .expect("a roster");
    let line = held.reloaded(Ok(fresh));
    assert_eq!(
        line,
        "<6>reloaded the Leios key roster /r.json, taken in epoch 501 at slot 456"
    );
    assert!(!held.is_stale(Some(stamp)));
    let unparsed = Unreadable::Parse {
        reason: "expected value".to_string(),
    };
    assert_eq!(
        unparsed.message(),
        "is not the JSON this build reads: expected value"
    );
}

fn object(byte: u8, kind: Kind, wire: &[u8]) -> FetchedObject {
    FetchedObject {
        name: ObjectName::stamped(NOW as u64, 0, pool(7), agent("relay-1"), kind),
        attestation: attributed(byte, wire).attestation,
        wire_bytes: wire.to_vec(),
    }
}

#[test]
fn a_stored_object_verifies_from_itself_alone() {
    let wire = sealed(b"{}");
    let said = || header(2, "relay-1", NOW);
    assert!(verify(&object(7, Kind::Logs, &wire), false, said()).is_ok());

    let mut bent = object(7, Kind::Logs, &wire);
    bent.wire_bytes.push(0);
    assert!(matches!(
        verify(&bent, false, said()),
        Err(VerifyError::BadSignature { .. })
    ));
    assert!(matches!(
        verify(&object(7, Kind::Logs, &wire), false, Err("bad".to_string())),
        Err(VerifyError::UnreadableHeader { .. })
    ));
    assert!(matches!(
        verify(&object(7, Kind::Logs, &wire), false, header(9, "relay-1", NOW)),
        Err(VerifyError::UnnameableKind {
            schema_version: 9,
            ..
        })
    ));
    // Another agent's, another kind's and another pool's are each filed somewhere else.
    for (found, said) in [
        (object(7, Kind::Logs, &wire), header(2, "relay-2", NOW)),
        (object(7, Kind::Metrics, &wire), said()),
        (object(9, Kind::Logs, &wire), said()),
    ] {
        let error = verify(&found, false, said).expect_err("misfiled");
        assert!(
            matches!(&error, VerifyError::Misfiled { .. }),
            "{}",
            error.message()
        );
        assert!(error.message().contains(": the batch inside belongs at "));
    }
}

#[test]
fn an_audit_counts_what_it_found() {
    let wire = sealed(b"{}");
    let found = object(7, Kind::Logs, &wire);
    let mut audit = Audit::new();
    audit.note(
        "a",
        Checked::Verified {
            attributed: true,
            outcome: verify(&found, false, header(2, "relay-1", NOW)),
        },
    );
    audit.note(
        "b",
        Checked::Verified {
            attributed: false,
            outcome: verify(&found, false, header(2, "relay-1", NOW)),
        },
    );
    audit.note(
        "c",
        Checked::Verified {
            attributed: true,
            outcome: verify(&found, false, header(1, "relay-1", NOW)),
        },
    );
    audit.note(
        "d",
        Checked::NotFetched {
            reason: "gone".to_string(),
        },
    );
    assert_eq!((audit.verified, audit.unattributed), (1, 1));
    assert_eq!((audit.failed(), audit.unreadable()), (1, 1));
    assert_eq!(
        audit
            .failures
            .iter()
            .find(|failure| matches!(failure, AuditFailure::Unreadable { .. }))
            .expect("one")
            .message(),
        "d: not read, so not checked: gone"
    );
    let error = AuditError::Archive(ArchiveError::List {
        reason: "no".to_string(),
    });
    assert_eq!(error.message(), "listing the archive: no");
}

#[test]
fn a_page_is_in_key_order_and_bounded() {
    let held: Vec<String> = ["v1/c", "v1/a", "v2/a", "v1/b"]
        .iter()
        .map(|key| key.to_string())
        .collect();
    let first = page(&held, "v1/", "", n32(2));
    assert_eq!(first.keys, vec!["v1/a", "v1/b"]);
    assert!(first.truncated);
    let rest = page(&held, "v1/", "v1/b", n32(2));
    assert_eq!(rest.keys, vec!["v1/c"]);
    assert!(!rest.truncated);
    let all = bounded(held, n32(4));
    assert_eq!((all.keys.len(), all.truncated), (4, false));
}

/// A page at a time, each from the last key of the one before: every key once, in order.
#[test]
fn paging_reaches_every_key_once() {
    let held: Vec<String> = ["v1/d", "v1/a", "v1/c", "v2/a", "v1/e", "v1/b"]
        .iter()
        .map(|key| key.to_string())
        .collect();
    for size in 1..=6 {
        let mut gathered: Vec<String> = Vec::new();
        loop {
            let after = gathered.last().cloned().unwrap_or_default();
            let next = page(&held, "v1/", &after, n32(size));
            gathered.extend(next.keys);
            if !next.truncated {
                break;
            }
        }
        assert_eq!(gathered, vec!["v1/a", "v1/b", "v1/c", "v1/d", "v1/e"]);
    }
}

#[test]
fn a_filesystem_archive_reads_only_object_keys() {
    let archive = FilesystemArchive::new("/srv/archive");
    assert_eq!(archive.location(), "/srv/archive");
    let name = ObjectName::stamped(NOW as u64, 0, pool(7), agent("relay-1"), Kind::Logs);
    let path = archive.path_of(&name);
    assert_eq!(path, format!("/srv/archive/{}", name.to_key()));
    assert_eq!(archive.locate(&name.to_key()).expect("a key"), path);
    let error = archive.locate("v1/../../etc/passwd").expect_err("no key");
    assert!(error.message().starts_with("fetching v1/../../etc/passwd: "));
    assert_eq!(
        FilesystemArchive::opened("k", Opened::Found { length: 3 }).expect("found"),
        3
    );
    assert!(matches!(
        FilesystemArchive::opened("k", Opened::NotFound),
        Err(ArchiveError::NoSuchObject { .. })
    ));
    let error = FilesystemArchive::opened(
        "k",
        Opened::Failed {
            reason: "denied".to_string(),
        },
    )
    .expect_err("not read");
    assert_eq!(error.message(), "fetching k: denied");
    assert!(root_found("/r", Opened::Found { length: 0 }).expect("there"));
    assert!(!root_found("/r", Opened::NotFound).expect("an empty archive"));
    let error = root_found(
        "/r",
        Opened::Failed {
            reason: "denied".to_string(),
        },
    )
    .expect_err("not an empty archive");
    assert_eq!(error.message(), "listing the archive: /r: denied");
    assert_eq!(unreadable("/r", "no").message(), "listing the archive: /r: no");
    let wire = sealed(b"{}");
    let submission = StoredSubmission {
        name,
        attestation: attributed(7, &wire).attestation,
        wire_bytes: &wire,
    };
    assert!(path.ends_with(&submission.object_key()));
}

#[test]
fn an_application_code_is_an_identifier() {
    assert_eq!(
        ApplicationCode::parse("  AB-1_2.c\n").expect("a code").as_str(),
        "AB-1_2.c"
    );
    assert!(matches!(
        ApplicationCode::parse(" \t "),
        Err(ApplicationCodeError::Empty)
    ));
    let error = ApplicationCode::parse("a b").expect_err("no code");
    assert_eq!(
        error.message(),
        "\"a b\" is not an application code: letters, digits, '-', '_' and '.' only"
    );
}

#[test]
fn a_configured_path_is_stated_in_full() {
    assert_eq!(
        AbsolutePath::new("/etc/x".to_string()).expect("absolute").as_path(),
        "/etc/x"
    );
    let error = AbsolutePath::new("etc/x".to_string()).expect_err("relative");
    assert_eq!(error.message(), "etc/x must be an absolute path");
}

#[test]
fn an_attestation_of_an_archive_is_attributed_to_its_filing() {
    let wire = sealed(b"{}");
    let Attestation::ColdKey { .. } = attributed(7, &wire).attestation else {
        panic!("a cold pair");
    };
    let filed = Attributed::filed(attributed(7, &wire).attestation, pool(9));
    assert_eq!(filed.pool_id(), pool(9));
    let signed = filed.over(&wire);
    assert_eq!(signed.pool_id(), pool(9));
    assert!(signed.verifies(false) && signed.authorised(None).is_ok());
}
