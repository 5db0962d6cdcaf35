//! The bucket: where it is asked, how often, and what its answers mean.

use metsuke::count::{NonZeroU32, NonZeroU64};
use metsuke::hex;
use metsuke::key::{Kind, ObjectName};
use metsuke::server::archive::{ArchiveError, StoredSubmission};
use metsuke::server::config::S3Config;
use metsuke::server::s3::{
    attestation, fetched, metadata, page, page_fields, page_of, refused, transient, unanswered,
    unreadable_answer, Attempts, Failure, Head, Meta, Next, Retry, S3Archive, S3Error, Transport,
    META_SIGNATURE, META_VKEY,
};
use metsuke::wire::agent::AgentId;
use metsuke::wire::attestation::{Attestation, LeiosPublicKey};
use metsuke::wire::pool::PoolId;
use metsuke::wire::signing::{Signature, VerifyingKey};

fn config(endpoint: &str, pages: u32) -> S3Config {
    let ms = |value| NonZeroU64::new(value).expect("above zero");
    S3Config {
        bucket: "telemetry".to_string(),
        region: "garage".to_string(),
        endpoint: endpoint.to_string(),
        request_timeout_ms: ms(1000),
        signature_validity_secs: ms(300),
        put_retries: 2,
        put_retry_backoff_ms: ms(250),
        list_max_pages: NonZeroU32::new(pages).expect("above zero"),
    }
}

fn bucket(pages: u32) -> S3Archive {
    S3Archive::new(
        &config("https://s3.example:3900", pages),
        "KEYID".to_string(),
        "SECRET".to_string(),
        None,
    )
    .ok()
    .expect("an endpoint")
}

fn key_bytes() -> [u8; 32] {
    ed25519_dalek::SigningKey::from_bytes(&[7u8; 32])
        .verifying_key()
        .to_bytes()
}

fn cold() -> Attestation {
    Attestation::ColdKey {
        vkey: VerifyingKey::from_bytes(&key_bytes()).expect("a key"),
        signature: Signature::from_bytes(&[3u8; 64]),
    }
}

fn name() -> ObjectName {
    ObjectName::stamped(
        1_755_000_000,
        0,
        PoolId { hash: [1u8; 28] },
        AgentId::parse("relay-1").expect("a slug"),
        Kind::Logs,
    )
}

fn said(bytes: &[u8]) -> Meta {
    Meta::Said(hex::encode(bytes))
}

fn head() -> Head {
    Head {
        vkey: said(&key_bytes()),
        signature: said(&[3u8; 64]),
        length: Some(12),
    }
}

fn failure(retryable: bool, status: Option<u16>) -> Failure {
    Failure {
        reason: "no".to_string(),
        retryable,
        status,
    }
}

#[test]
fn an_endpoint_that_serves_no_bucket_is_named() {
    let Err(S3Error::Endpoint { endpoint, reason }) = S3Archive::new(
        &config("ftp://s3.example", 1),
        String::new(),
        String::new(),
        None,
    ) else {
        panic!("ftp is no scheme of a bucket");
    };
    assert_eq!(endpoint, "ftp://s3.example");
    let error = S3Error::Endpoint { endpoint, reason };
    assert!(error
        .message()
        .starts_with("endpoint ftp://s3.example is not an S3 endpoint: "));
    assert!(S3Archive::new(&config("nope", 1), String::new(), String::new(), None).is_err());
    assert_eq!(
        bucket(1).location(),
        "telemetry at https://s3.example:3900/telemetry/"
    );
    assert_eq!(bucket(1).put_retry_backoff_ms(), 250);
}

/// The bucket stays in the path, every metadata header is signed, and the validity is the config's.
#[test]
fn a_request_is_presigned() {
    let bytes = b"wire".to_vec();
    let submission = StoredSubmission {
        name: name(),
        attestation: cold(),
        wire_bytes: &bytes,
    };
    let url = bucket(1).put_url(&submission);
    let place = format!(
        "https://s3.example:3900/telemetry/{}?",
        submission.object_key()
    );
    assert!(url.starts_with(&place), "{url}");
    assert!(url.contains("X-Amz-Expires=300"), "{url}");
    assert!(
        url.contains("X-Amz-SignedHeaders=host%3Bx-amz-meta-signature%3Bx-amz-meta-vkey"),
        "{url}"
    );
    assert!(url.contains("X-Amz-Credential=KEYID%2F"), "{url}");
    assert!(!url.contains("SECRET") && !url.contains("X-Amz-Security-Token"), "{url}");

    let url = bucket(1).get_url(&submission.object_key()).expect("a key");
    assert!(url.starts_with(&place), "{url}");
    let error = bucket(1).get_url("v1/../x").expect_err("no key");
    assert!(error.message().starts_with("fetching v1/../x: "));
}

#[test]
fn a_listing_carries_its_filters_upstream() {
    let many = NonZeroU32::new(100_000).expect("above zero");
    assert_eq!(
        page_fields("v1/a", "v1/b", many),
        vec![
            ("prefix", "v1/a".to_string()),
            ("max-keys", "65535".to_string()),
            ("start-after", "v1/b".to_string()),
        ]
    );
    let few = NonZeroU32::new(7).expect("above zero");
    assert_eq!(page_fields("v1/", "", few).len(), 2);
    let url = bucket(1).page_url("v1/a", "v1/b", few);
    assert!(url.starts_with("https://s3.example:3900/telemetry/?"), "{url}");
    for field in ["prefix=v1%2Fa", "max-keys=7", "start-after=v1%2Fb", "list-type=2"] {
        assert!(url.contains(field), "{field}: {url}");
    }
}

/// A listing as a bucket writes it.
fn xml(keys: &[&str], next: Option<&str>) -> String {
    let contents: String = keys
        .iter()
        .map(|key| format!("<Contents><Key>{key}</Key></Contents>"))
        .collect();
    let next = match next {
        Some(token) => format!(
            "<IsTruncated>true</IsTruncated><NextContinuationToken>{token}</NextContinuationToken>"
        ),
        None => "<IsTruncated>false</IsTruncated>".to_string(),
    };
    format!(
        "<?xml version=\"1.0\" encoding=\"UTF-8\"?>\
         <ListBucketResult xmlns=\"http://s3.amazonaws.com/doc/2006-03-01/\">\
         {contents}{next}</ListBucketResult>"
    )
}

#[test]
fn a_page_is_truncated_where_the_bucket_goes_on() {
    let found = page(&xml(&["v1/a", "v1/b"], Some("t1"))).expect("a listing");
    assert_eq!(found.keys, vec!["v1/a", "v1/b"]);
    assert!(found.truncated);
    assert!(!page(&xml(&[], None)).expect("a listing").truncated);
    let error = page("nope").expect_err("no listing");
    assert!(error
        .message()
        .starts_with("listing the archive: the listing does not parse: "));
    let found = page_of(Ok((vec!["k".to_string()], None))).expect("read");
    assert_eq!((found.keys.len(), found.truncated), (1, false));
}

#[test]
fn a_walk_ends_at_the_last_page_or_at_its_bound() {
    let archive = bucket(3);
    let mut walk = archive.walk();
    assert!(archive.walk_url(&walk).contains("prefix=v1%2F"));
    let (keys, next) = walk.read(&xml(&["v1/a"], Some("t1"))).expect("a page");
    assert_eq!(keys, vec!["v1/a"]);
    assert!(matches!(next, Next::More));
    assert_eq!(
        walk.fields(),
        vec![
            ("prefix", "v1/".to_string()),
            ("continuation-token", "t1".to_string())
        ]
    );
    assert!(archive.walk_url(&walk).contains("continuation-token=t1"));
    let (_, next) = walk.read(&xml(&["v1/b"], None)).expect("a page");
    assert!(matches!(next, Next::Done));

    let mut stuck = archive.walk();
    stuck.read(&xml(&[], Some("t1"))).expect("a page");
    let (_, Next::Refused(error)) = stuck.read(&xml(&[], Some("t1"))).expect("a page") else {
        panic!("the same token again");
    };
    assert_eq!(
        error.message(),
        "listing the archive: page 2 handed back its own continuation token \"t1\""
    );

    let mut long = bucket(1).walk();
    let (_, Next::Refused(error)) = long.read(&xml(&[], Some("t1"))).expect("a page") else {
        panic!("one page is the bound");
    };
    assert_eq!(
        error.message(),
        "listing the archive: the listing is still truncated after 1 pages (list_max_pages)"
    );
    let mut bent = bucket(1).walk();
    assert!(bent.took(Err("bad".to_string())).is_err());
}

#[test]
fn only_a_passing_failure_is_tried_again() {
    let mut attempts: Attempts = bucket(1).attempts();
    for _ in 0..2 {
        let Retry::Again { line } = attempts.failed("k", failure(true, Some(503))) else {
            panic!("two retries are allowed");
        };
        assert_eq!(line, "<4>retrying the PUT of k: no");
    }
    let Retry::GiveUp(error) = attempts.failed("k", failure(true, Some(503))) else {
        panic!("the third is the last");
    };
    assert_eq!(error.message(), "storing k: no (after 3 attempts)");
    let mut attempts = bucket(1).attempts();
    assert!(matches!(
        attempts.failed("k", failure(false, Some(403))),
        Retry::GiveUp(ArchiveError::Upload { attempts: 1, .. })
    ));
}

#[test]
fn each_failure_says_whether_it_may_pass() {
    for lasting in [
        Transport::BadUri,
        Transport::Http,
        Transport::HostNotFound,
        Transport::InvalidProxyUrl,
        Transport::Tls,
        Transport::Pem,
        Transport::Rustls,
        Transport::BodyExceedsLimit,
    ] {
        assert!(!transient(lasting), "{lasting:?}");
    }
    assert!(transient(Transport::Other));
    let failure = unanswered(Transport::Other, "timed out".to_string());
    assert!(failure.retryable && failure.status.is_none());
    let failure = unreadable_answer(Transport::BodyExceedsLimit, "too big");
    assert_eq!(failure.reason, "unreadable answer: too big");
    assert!(!failure.retryable);
    assert!(refused(204, "").is_none());
    for (status, retryable) in [(301, true), (403, false), (500, true)] {
        let failure = refused(status, "said").expect("no success");
        assert_eq!(
            failure.reason,
            format!("the endpoint answered {status}: said")
        );
        assert_eq!((failure.retryable, failure.status), (retryable, Some(status)));
    }
}

#[test]
fn the_metadata_beside_an_object_reads_back() {
    let stored = metadata(&cold());
    assert_eq!(stored[0], (META_SIGNATURE, hex::encode(&[3u8; 64])));
    assert_eq!(stored[1], (META_VKEY, hex::encode(&key_bytes())));
    let read = attestation(
        &Meta::Said(stored[1].1.clone()),
        &Meta::Said(stored[0].1.clone()),
    )
    .expect("a pair");
    assert_eq!(metadata(&read), stored);
    let leios = metadata(&Attestation::LeiosKey {
        key: LeiosPublicKey {
            bytes: vec![1u8; 96],
        },
        vote: vec![2u8; 48],
    });
    assert!(attestation(
        &Meta::Said(leios[1].1.clone()),
        &Meta::Said(leios[0].1.clone())
    )
    .is_ok());
    assert_eq!(
        attestation(&Meta::Absent, &said(&[3u8; 64])).expect_err("no key"),
        "no x-amz-meta-vkey on the object"
    );
    assert_eq!(
        attestation(&said(&key_bytes()), &Meta::NotText).expect_err("no signature"),
        "x-amz-meta-signature is not text"
    );
    assert!(
        attestation(&Meta::Said("zz".to_string()), &said(&[3u8; 64]))
            .expect_err("no hex")
            .starts_with("x-amz-meta-vkey is not hex: ")
    );
}

#[test]
fn a_download_goes_out_with_or_without_its_metadata() {
    let archive = bucket(1);
    let opened = archive.opened("k", Ok(head())).expect("an object");
    assert_eq!(opened.length, 12);
    assert!(opened.attestation.is_some());
    let bare = archive
        .opened(
            "k",
            Ok(Head {
                vkey: Meta::Absent,
                ..head()
            }),
        )
        .expect("an object nobody can check");
    assert!(bare.attestation.is_none());
    let error = archive
        .opened(
            "k",
            Ok(Head {
                length: None,
                ..head()
            }),
        )
        .expect_err("no length");
    assert_eq!(
        error.message(),
        "https://s3.example:3900/telemetry/ answered a GET with no Content-Length"
    );
    assert!(matches!(
        archive.opened("k", Err(failure(false, Some(404)))),
        Err(ArchiveError::NoSuchObject { .. })
    ));
    assert!(matches!(
        archive.opened("k", Err(failure(true, Some(500)))),
        Err(ArchiveError::Fetch { .. })
    ));
}

#[test]
fn an_audit_reads_an_object_only_with_its_metadata() {
    let key = name().to_key();
    let object = fetched(&key, Ok(head()), Ok(b"wire".to_vec())).expect("an object");
    assert_eq!(object.name.to_key(), key);
    assert_eq!(object.wire_bytes, b"wire");
    for (key, answer, body) in [
        ("nope", Ok(head()), Ok(Vec::new())),
        (key.as_str(), Err(failure(false, Some(404))), Ok(Vec::new())),
        (
            key.as_str(),
            Ok(Head {
                signature: Meta::Absent,
                ..head()
            }),
            Ok(Vec::new()),
        ),
        (key.as_str(), Ok(head()), Err("reset".to_string())),
    ] {
        assert!(matches!(
            fetched(key, answer, body),
            Err(ArchiveError::Fetch { .. })
        ));
    }
}
