//! Who is let in, what each route does, and what a client and the journal are told.

use base64::Engine;
use metsuke::count::NonZeroU32;
use metsuke::hex;
use metsuke::server::archive::{ArchiveError, Page};
use metsuke::server::authority::{Attributed, AttributionError, Unauthorised};
use metsuke::server::config::{AbsolutePath, DeveloperConfig};
use metsuke::server::developer;
use metsuke::server::developer::{
    basic_credential, credential_of, query_value, Accounts, AccountsError, BadQuery, Developer,
    Filters, Username, UsernameError,
};
use metsuke::server::http::{
    answer, attested, challenge, listed, named, opened, oversized, refuse, status_for, submitted, Answer,
    AnswerBody, Answered, Method, ObjectHead, Pages, Request, Step, SubmissionHeaders, HTML,
};
use metsuke::server::instructions::File;
use metsuke::server::intake::{IngestError, Rejection};
use metsuke::wire::attestation::{Attestation, HeaderError, HEADER_SIGNATURE, HEADER_VKEY};
use metsuke::wire::envelope::{Ack, ContainerError};
use metsuke::wire::moment::Moment;
use metsuke::wire::pool::PoolId;

fn developer_of(rows: u32) -> Developer {
    let accounts = Accounts::parse("alice = \"swordfish\"\nbob_2 = \"pa:ss\"\n").expect("two");
    assert_eq!(accounts.count(), 2);
    Developer::new(
        &DeveloperConfig {
            user: "alice".to_string(),
            password_file: AbsolutePath::new("/run/pw".to_string()).expect("absolute"),
            list_max_rows: NonZeroU32::new(rows).expect("above zero"),
        },
        accounts,
    )
}

/// Two users with one password are two accounts.
#[test]
fn every_entry_of_a_secret_is_an_account() {
    let accounts = Accounts::parse("alice = \"same\"\nbob = \"same\"\n").expect("two");
    assert_eq!(accounts.count(), 2);
    assert!(Accounts::parse("").is_err());
}

/// A refusal names the user and says nothing of the password, nor of whether there is such a user.
#[test]
fn a_wrong_credential_is_refused_in_the_same_words() {
    let developer = developer_of(10);
    let refusal = |credential: &str| {
        developer
            .authorize(Some(&basic(credential)))
            .expect_err("no account's")
            .message()
    };
    let words = |user: &str| format!("the credential is not an account's, presented as {user}");
    assert_eq!(refusal("alice:wrong"), words("alice"));
    assert_eq!(refusal("alice:"), words("alice"));
    assert_eq!(refusal("mallory:swordfish"), words("mallory"));
}

/// What a client is sent is the same wherever it asked and whatever was wrong.
#[test]
fn every_challenge_is_the_same_answer() {
    let developer = developer_of(10);
    let missing = developer.authorize(None).expect_err("nothing presented");
    let wrong = developer
        .authorize(Some(&basic("alice:wrong")))
        .expect_err("no account's");
    for (path, error) in [("/v1/submissions", missing), ("/v1/object", wrong)] {
        let answered = challenge(path, &error);
        assert_eq!(answered.answer.status, 401);
        assert!(
            matches!(&answered.answer.body, AnswerBody::Bytes(body) if body == b"credentials required")
        );
        assert_eq!(
            answered.answer.headers,
            vec![(
                "www-authenticate",
                "Basic realm=\"metsuke archive\", charset=\"UTF-8\"".to_string()
            )]
        );
        assert!(answered.line.expect("logged").contains(path));
    }
}

fn basic(credential: &str) -> String {
    format!(
        "Basic {}",
        base64::engine::general_purpose::STANDARD.encode(credential)
    )
}

fn pages() -> Pages {
    Pages {
        quickstart: b"quickstart".to_vec(),
        details: b"details".to_vec(),
        analysis: b"analysis".to_vec(),
        icon: b"<svg/>".to_vec(),
        files: vec![File {
            name: "config.toml".to_string(),
            bytes: b"x = 1".to_vec(),
            content_type: "text/plain; charset=utf-8",
        }],
    }
}

fn pool(byte: u8) -> PoolId {
    PoolId { hash: [byte; 28] }
}

fn key_of(byte: u8) -> [u8; 32] {
    ed25519_dalek::SigningKey::from_bytes(&[byte; 32])
        .verifying_key()
        .to_bytes()
}

fn presented() -> Result<Attributed, AttributionError> {
    Attributed::decode(
        Some(&hex::encode(&key_of(7))),
        Some(&hex::encode(&[0u8; 64])),
        None,
    )
}

fn request(method: Method, target: &str, authorization: Option<String>) -> Request {
    Request {
        method,
        target: target.to_string(),
        submission: presented(),
        authorization,
        body: Vec::new(),
    }
}

fn stepped(request: &Request) -> Step {
    answer(request, &developer_of(50), &pages())
}

fn done(request: &Request) -> Answered {
    match stepped(request) {
        Step::Done(answered) => answered,
        other => panic!("not answered yet: {other:?}"),
    }
}

fn body(answer: &Answer) -> String {
    match &answer.body {
        AnswerBody::Bytes(bytes) => String::from_utf8(bytes.clone()).expect("text"),
        AnswerBody::Stream { .. } => panic!("a stream"),
    }
}

#[test]
fn every_account_is_let_in_by_its_own_credential() {
    let developer = developer_of(50);
    for (credential, user) in [("alice:swordfish", "alice"), ("bob_2:pa:ss", "bob_2")] {
        let found = developer
            .authorize(Some(&basic(credential)))
            .expect("an account");
        assert_eq!(found.as_str(), user);
    }
    for (header, said) in [
        (None, "no authorization header"),
        (Some(basic("alice:pa:ss")), ", presented as alice"),
        (Some(basic("mallory:x")), ", presented as mallory"),
    ] {
        let error = developer
            .authorize(header.as_deref())
            .expect_err("not an account's");
        assert!(error.message().contains(said), "{}", error.message());
    }
    for header in ["Bearer x", "Basic", "Basic !!!", "Basic /w==", "Basic YWxpY2U="] {
        assert!(developer.authorize(Some(header)).is_err(), "{header}");
    }
    assert!(developer
        .authorize(Some(&basic("alice:swordfish").replacen("Basic", "bAsIc", 1)))
        .is_ok());
}

#[test]
fn a_header_presents_what_a_client_put_in_it() {
    let found = basic_credential(&basic("bob_2:pa:ss")).expect("a credential");
    assert_eq!(found.user.as_str(), "bob_2");
    assert_eq!(found.credential, "bob_2:pa:ss");
    assert!(credential_of(Some(b"no colon".to_vec())).is_err());
    assert!(credential_of(Some(vec![0xff])).is_err());
    assert!(credential_of(None).is_err());
}

#[test]
fn a_secret_that_names_no_usable_accounts_stops_the_start() {
    assert!(matches!(
        Accounts::parse("alice = 1"),
        Err(AccountsError::NotATable(_))
    ));
    assert!(matches!(Accounts::parse(""), Err(AccountsError::Empty)));
    assert!(matches!(
        Accounts::parse("\"a b\" = \"x\""),
        Err(AccountsError::Username {
            source: UsernameError::NotAUsername { .. }
        })
    ));
    let error = Accounts::parse("alice = \"\"").err().expect("no password");
    assert_eq!(
        error.message(),
        "gives alice an empty password, which would authorize anyone naming that user"
    );
    let error = Accounts::parse("= 3").err().expect("no table");
    assert!(error
        .message()
        .starts_with("does not parse as a table of username to password: "));
}

#[test]
fn a_username_is_a_short_identifier() {
    assert_eq!(Username::parse("a-B_9").expect("a name").as_str(), "a-B_9");
    assert!(matches!(Username::parse(""), Err(UsernameError::Empty)));
    let error = Username::parse("a:b").expect_err("a colon");
    assert_eq!(
        error.message(),
        "\"a:b\" is not a username: letters, digits, '-' and '_' only"
    );
    assert!(Username::parse(&"a".repeat(64)).is_ok());
    let error = Username::parse(&"a".repeat(65)).expect_err("too long");
    assert_eq!(
        error.message(),
        "a username is at most 64 characters, and this one is 65"
    );
}

#[test]
fn a_listing_reads_its_filters_off_the_query() {
    let filters = Filters::parse("/v1/submissions?prefix=v1%2F2025&after=v1%2Fx").expect("two");
    assert_eq!(filters.prefix, "v1/2025");
    assert_eq!(filters.after, "v1/x");
    // An empty prefix stays inside the archive's own.
    let filters = Filters::parse("/v1/submissions").expect("none");
    assert_eq!((filters.prefix.as_str(), filters.after.as_str()), ("v1/", ""));
    assert!(matches!(
        Filters::parse("/v1/submissions?after=%ff"),
        Err(BadQuery::NotUtf8 { field: "after" })
    ));
    assert_eq!(query_value("/p?key=a%2Bb&key=c", "key").expect("the first"), "a+b");
    assert_eq!(query_value("/p", "key").expect("nothing"), "");
    assert_eq!(
        BadQuery::NotUtf8 { field: "key" }.message(),
        "key is not UTF-8 once its percent escapes are decoded"
    );
}

#[test]
fn a_listing_asks_for_no_more_than_one_page_holds() {
    assert_eq!(developer_of(50).list_max_rows().get(), 50);
    assert_eq!(developer_of(5000).list_max_rows().get(), 1000);
    assert_eq!(
        developer::page(&Page {
            keys: vec!["v1/\"a\"".to_string(), "v1/b".to_string()],
            truncated: true,
        }),
        "{\"keys\":[\"v1/\\\"a\\\"\",\"v1/b\"],\"truncated\":true}"
    );
}

#[test]
fn the_pages_are_anyones_and_only_for_reading() {
    for (target, said) in [
        ("/", "quickstart"),
        ("/?x=1", "quickstart"),
        ("/details", "details"),
        ("/analysis", "analysis"),
        ("/favicon.svg", "<svg/>"),
        ("/favicon.ico", "<svg/>"),
        ("/files/config.toml", "x = 1"),
    ] {
        let answered = done(&request(Method::Get, target, None));
        assert_eq!(answered.answer.status, 200, "{target}");
        assert_eq!(body(&answered.answer), said);
        assert_eq!(answered.line, None);
    }
    assert_eq!(
        done(&request(Method::Get, "/", None)).answer.content_type,
        HTML
    );
    let answered = done(&request(Method::Post, "/details", None));
    assert_eq!(answered.answer.status, 405);
    assert_eq!(body(&answered.answer), "/details takes GET");
    let answered = done(&request(Method::Get, "/files/other", None));
    assert_eq!(answered.answer.status, 404);
    assert_eq!(
        body(&answered.answer),
        "no route /files/other, submissions go to /v1/submit"
    );
    assert_eq!(pages().at("/files/"), None);
}

#[test]
fn a_submission_needs_its_headers() {
    assert!(matches!(
        stepped(&request(Method::Post, "/v1/submit", None)),
        Step::Submit
    ));
    let answered = done(&request(Method::Get, "/v1/submit", None));
    assert_eq!(body(&answered.answer), "/v1/submit takes POST");
    let mut bare = request(Method::Post, "/v1/submit", None);
    bare.submission = Err(AttributionError::Attestation(HeaderError::Missing {
        header: HEADER_VKEY,
    }));
    let answered = done(&bare);
    assert_eq!(answered.answer.status, 400);
    assert!(answered
        .line
        .expect("a refusal is logged")
        .starts_with("<4>refused an unidentified client: 400, "));
}

/// Authentication comes before the method, and every refusal of it reads the same.
#[test]
fn a_client_that_is_not_let_in_learns_nothing() {
    let mut lines = Vec::new();
    for (method, target, authorization) in [
        (Method::Get, "/v1/submissions", None),
        (Method::Post, "/v1/object?key=x", Some(basic("alice:wrong"))),
        (Method::Get, "/v1/object", Some("Bearer x".to_string())),
    ] {
        let answered = done(&request(method, target, authorization));
        assert_eq!(answered.answer.status, 401);
        assert_eq!(body(&answered.answer), "credentials required");
        assert_eq!(
            answered.answer.headers,
            vec![(
                "www-authenticate",
                "Basic realm=\"metsuke archive\", charset=\"UTF-8\"".to_string()
            )]
        );
        lines.push(answered.line.expect("logged"));
    }
    assert!(lines[0].ends_with("/v1/submissions: no authorization header"), "{}", lines[0]);
    assert!(lines[1].ends_with(", presented as alice"), "{}", lines[1]);
}

#[test]
fn a_developer_lists_and_downloads() {
    let auth = || Some(basic("alice:swordfish"));
    let Step::List { filters, max_keys } =
        stepped(&request(Method::Get, "/v1/submissions?prefix=v1%2Fa", auth()))
    else {
        panic!("a listing");
    };
    assert_eq!((filters.prefix.as_str(), max_keys.get()), ("v1/a", 50));
    let Step::Object { key } = stepped(&request(Method::Get, "/v1/object?key=v1%2Fa", auth())) else {
        panic!("a download");
    };
    assert_eq!(key, "v1/a");
    let answered = done(&request(Method::Get, "/v1/object", auth()));
    assert_eq!(body(&answered.answer), "name the object in ?key=");
    let answered = done(&request(Method::Get, "/v1/object?key=%ff", auth()));
    assert_eq!(answered.answer.status, 400);
    let answered = done(&request(Method::Get, "/v1/submissions?prefix=%ff", auth()));
    assert_eq!(answered.answer.status, 400);
    let answered = done(&request(Method::Other, "/v1/submissions", auth()));
    assert_eq!(answered.answer.status, 405);
}

#[test]
fn a_failed_archive_is_not_the_clients_to_read() {
    let error = || ArchiveError::Fetch {
        key: "v1/a".to_string(),
        reason: "bucket secret-name".to_string(),
    };
    for (answered, said) in [
        (listed(Err(error())), "the archive cannot be listed"),
        (opened(Err(error())), "the archive cannot be read"),
        (
            submitted(pool(1), Err(IngestError::Archive(error()))),
            "the archive cannot be written",
        ),
    ] {
        assert_eq!(answered.answer.status, 503);
        assert_eq!(body(&answered.answer), said);
        let line = answered.line.expect("logged");
        assert!(line.starts_with("<3>refused "), "{line}");
        assert!(line.ends_with("bucket secret-name"), "{line}");
    }
    let answered = opened(Err(ArchiveError::NoSuchObject {
        key: "v1/a".to_string(),
    }));
    assert_eq!(answered.answer.status, 404);
    assert_eq!(body(&answered.answer), "no such object");
}

#[test]
fn a_download_carries_what_a_consumer_checks_it_with() {
    let attestation = presented().expect("a pair").attestation;
    let headers = attested(&Some(attestation));
    assert_eq!(headers[0], (HEADER_VKEY, hex::encode(&key_of(7))));
    assert_eq!(headers[1], (HEADER_SIGNATURE, hex::encode(&[0u8; 64])));
    let read = Attestation::decode(Some(&headers[0].1), Some(&headers[1].1)).expect("it reads");
    let answered = opened(Ok(ObjectHead {
        key: "v1/a".to_string(),
        length: 12,
        attestation: Some(read),
    }));
    assert_eq!(answered.answer.headers, headers);
    assert!(matches!(
        answered.answer.body,
        AnswerBody::Stream { length: 12, .. }
    ));
    assert!(attested(&None).is_empty());
}

#[test]
fn each_rejection_answers_with_its_status() {
    let moment = || Moment::new(0, "t".to_string()).expect("on the calendar");
    for (rejection, status) in [
        (
            Rejection::OversizedBody {
                found: 2,
                max: 1,
            },
            413,
        ),
        (
            Rejection::NotASubmission(ContainerError::Short { found: 0 }),
            400,
        ),
        (Rejection::UnknownPool { pool_id: pool(1) }, 403),
        (
            Rejection::RateLimited {
                pool_id: pool(1),
                max: 1,
                window_secs: 1,
            },
            429,
        ),
        (
            Rejection::ServerBusy {
                max: 1,
                window_secs: 1,
            },
            429,
        ),
        (Rejection::BadSignature, 403),
        (Rejection::Unauthorised(Unauthorised::NoRoster), 403),
        (
            Rejection::StaleTimestamp {
                sealed_at: moment(),
                now: moment(),
                max_secs: 1,
            },
            400,
        ),
        (
            Rejection::UnreadableHeader {
                reason: "x".to_string(),
            },
            400,
        ),
        (Rejection::KeylessSchema { schema_version: 9 }, 400),
    ] {
        assert_eq!(status_for(&rejection), status);
        let said = rejection.message();
        let answered = submitted(pool(1), Err(IngestError::Rejected(rejection)));
        assert_eq!(answered.answer.status, status);
        assert_eq!(body(&answered.answer), said);
        assert_eq!(
            answered.line.expect("logged"),
            format!("<4>refused {}: {status}, {said}", pool(1).to_bech32())
        );
    }
}

#[test]
fn an_accepted_submission_is_acknowledged() {
    let answered = submitted(
        pool(1),
        Ok(Ack {
            latest_version: "0.3.0".to_string(),
        }),
    );
    assert_eq!(answered.answer.status, 200);
    assert_eq!(body(&answered.answer), "{\"latest_version\":\"0.3.0\"}");
    assert_eq!(answered.line, None);
    assert_eq!(named(None), "an unidentified client");
    assert_eq!(
        body(&oversized(Some(pool(1)), 20, 10).answer),
        "body is 20 bytes, over the 10 byte limit"
    );
    assert!(refuse(None, 500, "x").line.expect("logged").starts_with("<3>"));
}

#[test]
fn submission_headers_name_their_pool() {
    let found = SubmissionHeaders::decode(
        Some(&hex::encode(&key_of(7))),
        Some(&hex::encode(&[0u8; 64])),
    )
    .expect("a pair");
    assert_eq!(found.pool_id(), presented().expect("a pair").pool_id());
    assert!(SubmissionHeaders::decode(None, None).is_err());
}
