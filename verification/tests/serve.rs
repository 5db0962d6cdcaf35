//! What the transport decides, on concrete values.

use metsuke::server::authority::{Attributed, AttributionError};
use metsuke::server::http::{Answer, AnswerBody, Method, Request};
use metsuke::server::serve::{
    about_one, broke_down, declared_length, ended_line, fields, not_accepted_line, one_connection,
    stalled_text, takes_a_body, AcceptFailure, Download, Incoming, Moved,
};
use metsuke::wire::attestation::{Attestation, LeiosPublicKey};
use metsuke::wire::pool::PoolId;
use std::io::Error;

// The errnos below, as Linux numbers them. Written out rather than pulled from a crate:
// `one_connection` matches on the kind of an error, and what these check is that the errno an
// operator would see maps where it expects.
const EPERM: i32 = 1;
const EINTR: i32 = 4;
const EMFILE: i32 = 24;
const ENETDOWN: i32 = 100;
const ENETUNREACH: i32 = 101;
const ECONNABORTED: i32 = 103;
const EHOSTUNREACH: i32 = 113;

#[test]
fn a_failure_carried_by_one_connection_is_skipped() {
    for errno in [ECONNABORTED, EINTR, ENETDOWN, ENETUNREACH, EHOSTUNREACH] {
        let error = Error::from_raw_os_error(errno);
        assert!(
            one_connection(&error),
            "{errno}: {error} ({:?})",
            error.kind()
        );
    }
}

#[test]
fn a_failure_about_the_process_is_not_skipped() {
    for errno in [EPERM, EMFILE] {
        let error = Error::from_raw_os_error(errno);
        assert!(
            !one_connection(&error),
            "{errno}: {error} ({:?})",
            error.kind()
        );
    }
}

fn pool() -> PoolId {
    PoolId { hash: [1u8; 28] }
}

#[test]
fn a_body_is_read_for_one_route_alone() {
    let asking = |method, target: &str, sound: bool| Request {
        method,
        target: target.to_string(),
        submission: match sound {
            true => Ok(Attributed::filed(
                Attestation::LeiosKey {
                    key: LeiosPublicKey {
                        bytes: vec![0u8; 96],
                    },
                    vote: vec![0u8; 48],
                },
                pool(),
            )),
            false => Err(AttributionError::Unnamed),
        },
        authorization: None,
        body: Vec::new(),
    };
    assert_eq!(
        takes_a_body(&asking(Method::Post, "/v1/submit?x=1", true)),
        Some(pool())
    );
    assert_eq!(takes_a_body(&asking(Method::Post, "/v1/submit", false)), None);
    assert_eq!(takes_a_body(&asking(Method::Get, "/v1/submit", true)), None);
    assert_eq!(takes_a_body(&asking(Method::Post, "/", true)), None);
}

#[test]
fn a_body_is_bounded_however_it_arrives() {
    assert_eq!(declared_length(Some("12")), Some(12));
    assert_eq!(declared_length(Some("twelve")), None);
    assert_eq!(declared_length(None), None);
    let refused = Incoming::new(Some(pool()), Some(11), 10).expect_err("declared too long");
    assert_eq!(refused.answer.status, 413);
    let mut incoming = Incoming::new(Some(pool()), None, 4).expect("no length declared");
    assert!(incoming.frame(b"ab").is_none());
    assert!(incoming.frame(b"cd").is_none());
    assert_eq!(incoming.collected, b"abcd");
    assert_eq!(
        incoming.frame(b"e").expect("over the bound").answer.status,
        413
    );
    assert_eq!(
        Incoming::late(None, 30_000).answer.status,
        408
    );
    let line = Incoming::unreadable(None, "reset").line.expect("logged");
    assert!(line.ends_with("could not read the request body: reset"), "{line}");
}

/// A download never sends more than it declared, and says where it sent less.
#[test]
fn a_download_sends_what_it_declared() {
    let mut whole = Download::new("k".to_string(), 4);
    assert!(matches!(whole.moved(3), Moved::Send));
    assert!(matches!(whole.moved(1), Moved::Send));
    assert!(matches!(whole.moved(0), Moved::Ended { short: None }));
    let mut short = Download::new("k".to_string(), 4);
    assert!(matches!(short.moved(3), Moved::Send));
    let Moved::Ended { short: Some(line) } = short.moved(0) else {
        panic!("one byte is owed");
    };
    assert_eq!(
        line,
        "<3>the download of k ended 1 bytes short of the 4 it declared"
    );
    let mut long = Download::new("k".to_string(), 4);
    assert!(matches!(long.moved(3), Moved::Send));
    let Moved::Cut { line } = long.moved(2) else {
        panic!("one byte too many");
    };
    assert_eq!(
        line,
        "<3>the download of k grew past the 4 it declared; cut at 3 bytes"
    );
    assert_eq!(
        long.stopped_line("reset"),
        "<3>the download of k stopped: reset"
    );
}

#[test]
fn a_stream_states_its_length() {
    let stream = Answer {
        status: 200,
        content_type: "application/zstd",
        body: AnswerBody::Stream {
            key: "k".to_string(),
            length: 7,
        },
        headers: vec![("x-a", "b".to_string())],
    };
    assert_eq!(
        fields(&stream),
        vec![
            ("content-type", "application/zstd".to_string()),
            ("x-a", "b".to_string()),
            ("content-length", "7".to_string()),
        ]
    );
    assert_eq!(
        fields(&Answer {
            body: AnswerBody::Bytes(vec![1]),
            headers: Vec::new(),
            ..stream
        })
        .len(),
        1
    );
}

#[test]
fn what_goes_wrong_on_a_connection_is_said() {
    assert!(about_one(AcceptFailure::Interrupted) && !about_one(AcceptFailure::Other));
    assert_eq!(
        not_accepted_line("reset"),
        "<4>a connection was not accepted: reset"
    );
    assert_eq!(
        ended_line(None, "reset"),
        "<4>the connection last answering an unidentified client ended: reset"
    );
    assert_eq!(stalled_text(30_000), "the client read nothing for 30s");
    let (answered, line) = broke_down("boom");
    assert_eq!(answered.answer.status, 503);
    assert_eq!(line, "<3>answering panicked: boom");
}
