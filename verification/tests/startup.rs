//! How the server is started, and what stops it.

use metsuke::count::NonZeroU32;
use metsuke::server::archive::ArchiveError;
use metsuke::server::cli::{asked, Args, ArgsError, Asked, Command, DEFAULT_CONFIG_PATH, USAGE, VERSION};
use metsuke::server::config::{AbsolutePath, DeveloperConfig};
use metsuke::server::instructions::deployment::Shadowed;
use metsuke::server::instructions::markup::Broken;
use metsuke::server::instructions::PagesError;
use metsuke::server::roster::{RosterError, Unreadable};
use metsuke::server::s3::S3Error;
use metsuke::server::startup::{
    accepting_line, developer, filesystem_line, keys_line, report_audit, starting_line,
    stopped_line, unservable, Fatal,
};
use metsuke::server::verify::{Audit, AuditError, AuditFailure, VerifyError};

fn words(args: &[&str]) -> Vec<String> {
    args.iter().map(|word| word.to_string()).collect()
}

#[test]
fn the_server_takes_one_flag_and_one_subcommand() {
    assert_eq!(
        Args::parse(&[]).expect("nothing is needed"),
        Args {
            config: DEFAULT_CONFIG_PATH.to_string(),
            command: Command::Serve,
        }
    );
    let args = Args::parse(&words(&["--config", "/a", "verify-archive", "--config", "/b"]))
        .expect("the last config counts");
    assert_eq!(args.config, "/b");
    assert_eq!(args.command, Command::VerifyArchive);
    let error = Args::parse(&words(&["--config"])).expect_err("no value");
    assert_eq!(
        error.message(),
        "--config needs a <path> value\ntry metsuke-server --help"
    );
    let error =
        Args::parse(&words(&["verify-archive", "verify-archive"])).expect_err("two commands");
    assert_eq!(
        error.message(),
        "verify-archive and verify-archive cannot both run: name one\ntry metsuke-server --help"
    );
    let error = Args::parse(&words(&["--verbose"])).expect_err("unknown");
    assert_eq!(
        error.message(),
        "unknown argument \"--verbose\"\ntry metsuke-server --help"
    );
}

#[test]
fn the_server_answers_help_and_version_wherever_they_stand() {
    assert!(matches!(asked(&words(&["--config", "-h"])), Asked::Help));
    assert!(matches!(asked(&words(&["x", "--version", "--help"])), Asked::Help));
    assert!(matches!(asked(&words(&["x", "--version"])), Asked::Version));
    assert!(matches!(
        asked(&words(&["x"])),
        Asked::Run(Err(ArgsError::Unknown { .. }))
    ));
    assert!(USAGE.contains("verify-archive"));
    assert_eq!(VERSION, "0.1.0");
}

fn config(user: &str) -> DeveloperConfig {
    DeveloperConfig {
        user: user.to_string(),
        password_file: AbsolutePath::new("/run/pw".to_string()).expect("absolute"),
        list_max_rows: NonZeroU32::new(10).expect("above zero"),
    }
}

#[test]
fn the_developer_account_is_read_off_its_file() {
    let held = developer(&config("alice"), Ok("swordfish\r\n".to_string()))
        .ok()
        .expect("an account");
    // alice:swordfish
    assert!(held
        .authorize(Some("Basic YWxpY2U6c3dvcmRmaXNo"))
        .is_ok());
    let said = |outcome: Result<_, Fatal>| match outcome {
        Ok(_) => panic!("the start stops"),
        Err(error) => error.message(),
    };
    assert_eq!(
        said(developer(&config("alice"), Err("gone".to_string()))),
        "cannot read the developer password /run/pw: gone"
    );
    assert_eq!(
        said(developer(&config("alice"), Ok("\n".to_string()))),
        "the developer password /run/pw is empty, which would authorize anyone"
    );
    assert_eq!(
        said(developer(&config("a b"), Ok("x".to_string()))),
        "the developer account of /run/pw names an unusable account: \"a b\" is not a username: \
         letters, digits, '-' and '_' only"
    );
}

#[test]
fn the_journal_is_told_how_the_server_started() {
    assert_eq!(starting_line(), "<6>metsuke-server 0.1.0 starting");
    assert!(filesystem_line("/srv").starts_with("<4>archiving to the filesystem at /srv: "));
    assert_eq!(
        accepting_line(3, "127.0.0.1:8080"),
        "<6>metsuke-server accepting 3 pools at http://127.0.0.1:8080/v1/submit"
    );
    assert_eq!(
        keys_line(Some((500, 123))),
        "<6>Leios keys from a roster taken in epoch 500 at slot 123"
    );
    assert_eq!(
        keys_line(None),
        "<6>cold-key submissions only: no Leios key roster is configured"
    );
}

#[test]
fn whatever_stops_the_server_is_said() {
    let text = |word: &str| word.to_string();
    for (error, said) in [
        (
            Fatal::ReadConfig {
                path: text("/c"),
                source: text("gone"),
            },
            "cannot read config /c: gone",
        ),
        (
            Fatal::ReadDownload {
                path: text("/d"),
                source: text("gone"),
            },
            "cannot read the agent build at /d: gone",
        ),
        (Fatal::Config(text("bad")), "bad"),
        (Fatal::Args(ArgsError::MissingValue), "--config needs a <path> value\ntry metsuke-server --help"),
        (
            Fatal::Roster(RosterError {
                path: text("/r"),
                kind: Unreadable::Read {
                    reason: text("gone"),
                },
            }),
            "the Leios key roster /r cannot be read: gone",
        ),
        (
            Fatal::S3(S3Error::Endpoint {
                endpoint: text("e"),
                reason: text("r"),
            }),
            "endpoint e is not an S3 endpoint: r",
        ),
        (
            Fatal::MissingCredentials,
            "the S3 archive needs AWS_ACCESS_KEY_ID and AWS_SECRET_ACCESS_KEY in the environment",
        ),
        (
            Fatal::Audit(AuditError::Archive(ArchiveError::List { reason: text("no") })),
            "cannot audit the archive: listing the archive: no",
        ),
        (
            Fatal::CannotVerifyFilesystem,
            "a filesystem archive stores no metadata to re-verify against",
        ),
        (
            Fatal::Listen {
                listen: text("l"),
                reason: text("r"),
            },
            "cannot listen on l: r",
        ),
        (Fatal::Accept(text("e")), "the listener stopped accepting: e"),
    ] {
        assert_eq!(error.message(), said);
        assert_eq!(
            stopped_line(&error),
            format!("<3>metsuke-server stopped: {said}")
        );
    }
    assert_eq!(
        unservable(PagesError::Broken(Broken {
            reason: text("torn")
        }))
        .message(),
        "torn"
    );
    assert_eq!(
        unservable(PagesError::Shadowed(Shadowed { name: text("x") })).message(),
        "x would be served twice: rename or drop the [downloads] entry naming it"
    );
}

#[test]
fn an_audit_passes_only_where_everything_verified() {
    let mut found = Audit::new();
    let (lines, outcome) = report_audit(&found);
    assert_eq!(lines, vec!["verified 0 objects"]);
    assert!(matches!(outcome, Err(Fatal::ArchiveEmpty)));
    found.verified = 2;
    assert!(report_audit(&found).1.is_ok());
    found.verified = 0;
    found.unattributed = 1;
    let (lines, outcome) = report_audit(&found);
    assert!(lines[1].starts_with("1 objects verified in every part but the pool"));
    assert!(outcome.is_ok());
    found.failures.push(AuditFailure::Failed(VerifyError::BadSignature {
        key: "k".to_string(),
    }));
    found.failures.push(AuditFailure::Unreadable {
        key: "j".to_string(),
        reason: "gone".to_string(),
    });
    let (lines, outcome) = report_audit(&found);
    assert_eq!(
        lines[2],
        "k: the signature does not verify over the stored bytes"
    );
    assert_eq!(
        outcome.expect_err("two failures").message(),
        "1 objects did not verify, 1 could not be read"
    );
}
