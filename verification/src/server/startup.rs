//! What starting the server decides: everything that stops it loudly before it serves, and what an
//! audit's findings come to.

use vstd::prelude::*;

use crate::server::cli::{ArgsError, VERSION};
use crate::server::config::DeveloperConfig;
use crate::server::developer;
use crate::server::developer::{Accounts, Developer};
use crate::server::http::SUBMIT_PATH;
use crate::server::instructions::{PagesError, PagesFault};
use crate::server::roster;
use crate::server::roster::RosterError;
use crate::server::s3::S3Error;
use crate::server::verify;
use crate::server::verify::{Audit, AuditError, AuditFailure};
use crate::text;
use crate::wire::journal::{ERR, INFO, WARNING};

verus! {

/// Why the server stops.
#[derive(Debug)]
pub enum Fatal {
    Args(ArgsError),
    ReadConfig { path: String, source: String },
    ReadDownload { path: String, source: String },
    Config(String),
    DeveloperPassword { path: String, source: String },
    EmptyDeveloperPassword { path: String },
    /// The account the config names cannot be one.
    Accounts { path: String, reason: String },
    Roster(RosterError),
    S3(S3Error),
    MissingCredentials,
    Audit(AuditError),
    CannotVerifyFilesystem,
    ArchiveNotVerified { failed: usize, unreadable: usize },
    ArchiveEmpty,
    /// The pages an operator reads cannot be served.
    Pages(String),
    Listen { listen: String, reason: String },
    /// Mid-life, not startup.
    Accept(String),
}

impl Fatal {
    /// What an operator reads.
    pub open spec fn spelled(self) -> Seq<char> {
        match self {
            Fatal::Args(error) => error@.spelled(),
            Fatal::ReadConfig { path, source } => "cannot read config "@ + path@ + ": "@ + source@,
            Fatal::ReadDownload { path, source } => "cannot read the agent build at "@ + path@
                + ": "@ + source@,
            Fatal::Config(error) => error@,
            Fatal::DeveloperPassword { path, source } => "cannot read the developer password "@
                + path@ + ": "@ + source@,
            Fatal::EmptyDeveloperPassword { path } => "the developer password "@ + path@
                + " is empty, which would authorize anyone"@,
            Fatal::Accounts { path, reason } => "the developer account of "@ + path@ + " "@
                + reason@,
            Fatal::Roster(error) => roster::roster_error_text(error.path@, error.kind@),
            Fatal::S3(error) => error.spelled(),
            Fatal::MissingCredentials =>
                "the S3 archive needs AWS_ACCESS_KEY_ID and AWS_SECRET_ACCESS_KEY in the environment"@,
            Fatal::Audit(error) => "cannot audit the archive: "@ + error.spelled(),
            Fatal::CannotVerifyFilesystem =>
                "a filesystem archive stores no metadata to re-verify against"@,
            Fatal::ArchiveNotVerified { failed, unreadable } => text::decimal(failed as int)
                + " objects did not verify, "@ + text::decimal(unreadable as int)
                + " could not be read"@,
            Fatal::ArchiveEmpty => "the archive holds no objects, so nothing was verified"@,
            Fatal::Pages(reason) => reason@,
            Fatal::Listen { listen, reason } => "cannot listen on "@ + listen@ + ": "@ + reason@,
            Fatal::Accept(error) => "the listener stopped accepting: "@ + error@,
        }
    }

    /// What an operator reads.
    pub fn message(&self) -> (r: String)
        ensures
            r@ == self.spelled(),
    {
        match self {
            Fatal::Args(error) => error.message(),
            Fatal::ReadConfig { path, source } => named("cannot read config ", path, source),
            Fatal::ReadDownload { path, source } => named(
                "cannot read the agent build at ",
                path,
                source,
            ),
            Fatal::Config(error) => error.clone(),
            Fatal::DeveloperPassword { path, source } => named(
                "cannot read the developer password ",
                path,
                source,
            ),
            Fatal::EmptyDeveloperPassword { path } => {
                let mut r = String::from_str("the developer password ");
                r.append(path.as_str());
                r.append(" is empty, which would authorize anyone");
                r
            },
            Fatal::Accounts { path, reason } => {
                let mut r = String::from_str("the developer account of ");
                r.append(path.as_str());
                r.append(" ");
                r.append(reason.as_str());
                r
            },
            Fatal::Roster(error) => error.message(),
            Fatal::S3(error) => error.message(),
            Fatal::MissingCredentials => String::from_str(
                "the S3 archive needs AWS_ACCESS_KEY_ID and AWS_SECRET_ACCESS_KEY in the environment",
            ),
            Fatal::Audit(error) => {
                let mut r = String::from_str("cannot audit the archive: ");
                r.append(error.message().as_str());
                r
            },
            Fatal::CannotVerifyFilesystem => String::from_str(
                "a filesystem archive stores no metadata to re-verify against",
            ),
            Fatal::ArchiveNotVerified { failed, unreadable } => {
                let mut r = text::decimal_of(*failed as u128);
                r.append(" objects did not verify, ");
                r.append(text::decimal_of(*unreadable as u128).as_str());
                r.append(" could not be read");
                r
            },
            Fatal::ArchiveEmpty => String::from_str(
                "the archive holds no objects, so nothing was verified",
            ),
            Fatal::Pages(reason) => reason.clone(),
            Fatal::Listen { listen, reason } => named("cannot listen on ", listen, reason),
            Fatal::Accept(error) => {
                let mut r = String::from_str("the listener stopped accepting: ");
                r.append(error.as_str());
                r
            },
        }
    }
}

fn named(what: &str, which: &String, why: &String) -> (r: String)
    ensures
        r@ == what@ + which@ + ": "@ + why@,
{
    let mut r = String::from_str(what);
    r.append(which.as_str());
    r.append(": ");
    r.append(why.as_str());
    r
}

/// What the journal is told last.
pub fn stopped_line(error: &Fatal) -> (r: String)
    ensures
        r@ == ERR@ + "metsuke-server stopped: "@ + error.spelled(),
{
    let mut r = String::from_str(ERR);
    r.append("metsuke-server stopped: ");
    r.append(error.message().as_str());
    r
}

/// What the journal is told first, before the config is even read: the start that most needs its
/// build named is the one about to fail.
pub fn starting_line() -> (r: String)
    ensures
        r@ == INFO@ + "metsuke-server "@ + VERSION@ + " starting"@,
{
    let mut r = String::from_str(INFO);
    r.append("metsuke-server ");
    r.append(VERSION);
    r.append(" starting");
    r
}

/// What is said once, loudly, of a filesystem archive: what it does not store no route, no audit
/// and no consumer can ever recover.
pub fn filesystem_line(root: &str) -> (r: String)
    ensures
        r@ == WARNING@ + "archiving to the filesystem at "@ + root@
            + ": this stores the submission bytes alone and drops the key and signature they were checked with, so nothing can verify this archive afterwards, verify-archive refuses it, and every download reaches a consumer unattested. S3 is what production runs (ADR 0005)."@,
{
    let mut r = String::from_str(WARNING);
    r.append("archiving to the filesystem at ");
    r.append(root);
    r.append(
        ": this stores the submission bytes alone and drops the key and signature they were checked with, so nothing can verify this archive afterwards, verify-archive refuses it, and every download reaches a consumer unattested. S3 is what production runs (ADR 0005).",
    );
    r
}

/// Where submissions are taken, and from how many pools. The bound address, not the configured one.
pub fn accepting_line(pools: usize, address: &str) -> (r: String)
    ensures
        r@ == INFO@ + "metsuke-server accepting "@ + text::decimal(pools as int)
            + " pools at http://"@ + address@ + SUBMIT_PATH@,
{
    let mut r = String::from_str(INFO);
    r.append("metsuke-server accepting ");
    r.append(text::decimal_of(pools as u128).as_str());
    r.append(" pools at http://");
    r.append(address);
    r.append(SUBMIT_PATH);
    r
}

/// Which keys submissions may be signed with.
pub open spec fn keys_text(position: Option<(u64, u64)>) -> Seq<char> {
    match position {
        Some((epoch, slot)) => INFO@ + "Leios keys from a roster taken in epoch "@ + text::decimal(
            epoch as int,
        ) + " at slot "@ + text::decimal(slot as int),
        None => INFO@ + "cold-key submissions only: no Leios key roster is configured"@,
    }
}

/// Which keys submissions may be signed with, given where a roster was taken.
pub fn keys_line(position: Option<(u64, u64)>) -> (r: String)
    ensures
        r@ == keys_text(position),
{
    let mut r = String::from_str(INFO);
    match position {
        Some((epoch, slot)) => {
            r.append("Leios keys from a roster taken in epoch ");
            r.append(text::decimal_of(epoch as u128).as_str());
            r.append(" at slot ");
            r.append(text::decimal_of(slot as u128).as_str());
        },
        None => {
            r.append("cold-key submissions only: no Leios key roster is configured");
        },
    }
    r
}

/// The accounts that a config's user and the text of its password file make, or what stops the
/// start. The line end behind the password is trimmed: an editor adds one and it is not part of the
/// secret.
pub open spec fn account_of(user: Seq<char>, secret: Seq<char>) -> Result<
    Map<Seq<u8>, Seq<char>>,
    developer::AccountsFault,
> {
    developer::accounts_of(Ok(seq![(user, text::without_line_ends(secret))]))
}

/// The developer account, with the password read off the file the config names. A file that is
/// missing, unreadable or empty stops startup: the routes would otherwise be open on a credential
/// nobody set, and the user is public in a config an operator publishes.
pub fn developer(config: &DeveloperConfig, secret: Result<String, String>) -> (r: Result<
    Developer,
    Fatal,
>)
    ensures
        match secret {
            Err(source) => r matches Err(Fatal::DeveloperPassword { path, source: said })
                && path@ == config.password_file@ && said@ == source@,
            Ok(held) => if text::without_line_ends(held@).len() == 0 {
                r matches Err(Fatal::EmptyDeveloperPassword { path }) && path@
                    == config.password_file@
            } else {
                match account_of(config.user@, held@) {
                    Ok(named) => r is Ok && r->Ok_0.named() == named && r->Ok_0.asked_rows()
                        == config.list_max_rows@,
                    Err(fault) => r matches Err(Fatal::Accounts { path, reason }) && path@
                        == config.password_file@ && reason@ == fault.spelled(),
                }
            },
        },
{
    let path = String::from_str(config.password_file.as_path());
    let held = match secret {
        Ok(held) => held,
        Err(source) => {
            return Err(Fatal::DeveloperPassword { path, source });
        },
    };
    let password = text::trim_line_ends(held.as_str());
    if text::is_empty(password.as_str()) {
        return Err(Fatal::EmptyDeveloperPassword { path });
    }
    let mut written: Vec<(String, String)> = Vec::new();
    written.push((config.user.clone(), password));
    assert(crate::outside::text_pair_views(written@) =~= seq![
        (config.user@, text::without_line_ends(held@)),
    ]);
    match Accounts::enrol(Ok(written)) {
        Ok(accounts) => Ok(Developer::new(config, accounts)),
        Err(error) => Err(Fatal::Accounts { path, reason: error.message() }),
    }
}

/// What stops a start whose pages cannot be served.
pub fn unservable(error: PagesError) -> (r: Fatal)
    ensures
        r is Pages,
        r->Pages_0@ == match error@ {
            PagesFault::Broken(reason) => reason,
            PagesFault::Shadowed(name) => name
                + " would be served twice: rename or drop the [downloads] entry naming it"@,
        },
{
    match error {
        PagesError::Broken(error) => Fatal::Pages(error.reason),
        PagesError::Shadowed(error) => Fatal::Pages(error.message()),
    }
}

/// What an audit says of itself, line by line.
pub open spec fn audit_lines(found: Audit) -> Seq<Seq<char>> {
    seq!["verified "@ + text::decimal(found.verified as int) + " objects"@]
        + (if found.unattributed > 0 {
        seq![
            text::decimal(found.unattributed as int)
                + " objects verified in every part but the pool they are filed under, which a Leios key cannot re-derive (ADR 0011)"@,
        ]
    } else {
        seq![]
    }) + found.failures@.map_values(|failure: AuditFailure| failure.spelled())
}

/// Whether an audit found nothing wrong, or what it stops with. Only an archive that held objects
/// and verified every one of them passes: an empty one checked nothing, and a failure carries both
/// counts because "did not verify" and "could not be read" are different news. An object checked in
/// every part but its filing is still an object that was read and verified.
pub open spec fn audit_passes(found: Audit) -> bool {
    found.failures@.len() == 0 && found.verified + found.unattributed > 0
}

/// What an audit says of itself, and what a monitor reads.
pub fn report_audit(found: &Audit) -> (r: (Vec<String>, Result<(), Fatal>))
    ensures
        text::views(r.0@) == audit_lines(*found),
        match r.1 {
            Ok(()) => audit_passes(*found),
            Err(Fatal::ArchiveEmpty) => found.failures@.len() == 0 && found.verified == 0
                && found.unattributed == 0,
            Err(Fatal::ArchiveNotVerified { failed, unreadable }) => found.failures@.len() > 0
                && unreadable == verify::unreadable_of(found.failures@) && failed
                == found.failures@.len() - unreadable,
            Err(_) => false,
        },
{
    let mut lines: Vec<String> = Vec::new();
    let mut first = String::from_str("verified ");
    first.append(text::decimal_of(found.verified as u128).as_str());
    first.append(" objects");
    lines.push(first);
    if found.unattributed > 0 {
        let mut second = text::decimal_of(found.unattributed as u128);
        second.append(
            " objects verified in every part but the pool they are filed under, which a Leios key cannot re-derive (ADR 0011)",
        );
        lines.push(second);
    }
    let ghost head = text::views(lines@);
    let ghost spell = |failure: AuditFailure| failure.spelled();
    assert(head =~= head + found.failures@.take(0).map_values(spell));
    for i in 0..found.failures.len()
        invariant
            spell == (|failure: AuditFailure| failure.spelled()),
            text::views(lines@) == head + found.failures@.take(i as int).map_values(spell),
    {
        let ghost before = lines@;
        let one = found.failures[i].message();
        lines.push(one);
        assert(text::views(lines@) =~= text::views(before).push(one@));
        assert(text::views(lines@) =~= head + found.failures@.take(i + 1).map_values(spell));
    }
    assert(found.failures@.take(found.failures@.len() as int) =~= found.failures@);
    assert(text::views(lines@) =~= audit_lines(*found));
    let failed: usize = found.failed();
    let unreadable: usize = found.unreadable();
    let outcome = if failed == 0 && unreadable == 0 {
        if found.verified == 0 && found.unattributed == 0 {
            Err(Fatal::ArchiveEmpty)
        } else {
            Ok(())
        }
    } else {
        Err(Fatal::ArchiveNotVerified { failed, unreadable })
    };
    (lines, outcome)
}

/// An audit passes exactly where something was verified and nothing failed: a failure of any kind
/// fails it, and so does an archive that holds nothing.
pub proof fn an_audit_passes_whole(found: Audit)
    ensures
        audit_passes(found) <==> (found.verified > 0 || found.unattributed > 0)
            && found.failures@.len() == 0,
        found.seen() == 0 ==> !audit_passes(found),
{
}

/// A monitor reads success off an audit exactly where something was verified and nothing failed.
pub proof fn an_audit_reports_as_it_went(
    found: &Audit,
    lines: Vec<String>,
    given: Result<(), Fatal>,
)
    requires
        call_ensures(report_audit, (found,), (lines, given)),
    ensures
        given is Ok <==> found.failures@.len() == 0 && (found.verified > 0 || found.unattributed
            > 0),
        given matches Err(Fatal::ArchiveNotVerified { failed, unreadable }) ==> failed + unreadable
            == found.failures@.len(),
{
}

/// The line end that an editor leaves behind a password is no part of it.
pub proof fn a_line_end_is_no_password(user: Seq<char>, secret: Seq<char>)
    ensures
        account_of(user, secret + seq!['\n']) == account_of(user, secret),
        account_of(user, secret + seq!['\r', '\n']) == account_of(user, secret),
{
    let once = secret + seq!['\n'];
    assert(once.last() == '\n');
    assert(once.drop_last() =~= secret);
    let both = secret + seq!['\r', '\n'];
    assert(both.last() == '\n');
    assert(both.drop_last() =~= secret + seq!['\r']);
    assert((secret + seq!['\r']).last() == '\r');
    assert((secret + seq!['\r']).drop_last() =~= secret);
    reveal_with_fuel(text::without_line_ends, 3);
}

}
