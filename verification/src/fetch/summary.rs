//! What a run says about itself: the build it is, the keys it refused, the counts, and how to
//! read what it wrote.

use vstd::prelude::*;

use crate::fetch::cli::VERSION;
use crate::fetch::recipe;
use crate::fetch::sync::{Rejected, Report};
use crate::key::Kind;
use crate::text;

verus! {

/// Why a run that did what it could is still a failure, or had no credential to run with.
#[derive(Debug, PartialEq, Eq)]
pub enum Fatal {
    /// The server would refuse an empty credential, and saying so here names the file.
    EmptyPassword { path: String },
    /// The objects that were refused are named in the report. The code is what a script reads.
    NotWritten { count: usize },
}

impl Fatal {
    /// What an operator reads.
    pub open spec fn spelled(self) -> Seq<char> {
        match self {
            Fatal::EmptyPassword { path } => "the password file "@ + path@ + " is empty"@,
            Fatal::NotWritten { count } => text::decimal(count as int)
                + " object(s) were not written, each named above"@,
        }
    }

    /// What an operator reads.
    pub fn message(&self) -> (r: String)
        ensures
            r@ == self.spelled(),
    {
        match self {
            Fatal::EmptyPassword { path } => {
                let mut r = String::from_str("the password file ");
                r.append(path.as_str());
                r.append(" is empty");
                r
            },
            Fatal::NotWritten { count } => {
                let mut r = text::decimal_of(*count as u128);
                r.append(" object(s) were not written, each named above");
                r
            },
        }
    }
}

/// The build and where it runs against, said before anything that can fail, so a run that stops
/// on its password file has still named the build it stopped from.
pub fn banner(server: &str) -> (r: String)
    ensures
        r@ == "metsuke-fetch "@ + VERSION@ + " against "@ + server@,
{
    let mut r = String::from_str("metsuke-fetch ");
    r.append(VERSION);
    r.append(" against ");
    r.append(server);
    r
}

/// The account's password out of the content of its file, with the line end an editor leaves
/// trimmed off.
pub fn password(path: &str, content: &str) -> (r: Result<String, Fatal>)
    ensures
        match r {
            Ok(password) => password@ == text::without_line_ends(content@) && password@.len() > 0,
            Err(error) => text::without_line_ends(content@).len() == 0 && (
            error matches Fatal::EmptyPassword { path: named } && named@ == path@),
        },
{
    let password = text::trim_line_ends(content);
    if password.as_str().is_empty() {
        Err(Fatal::EmptyPassword { path: String::from_str(path) })
    } else {
        Ok(password)
    }
}

/// A refused key, as a line.
pub open spec fn refused_line(rejected: Rejected) -> Seq<char> {
    "not written: "@ + rejected.key@ + " "@ + rejected.reason@
}

/// The counts of the listing, under the prefix that bounded it.
pub open spec fn listing_line(report: Report, prefix: Seq<char>) -> Seq<char> {
    text::decimal(report.settled()) + " keys under "@ + prefix + "; "@ + text::decimal(
        report.objects + report.rejected@.len(),
    ) + " selected, "@ + text::decimal(report.passed as int) + " outside the selection, "@
        + text::decimal(report.unnameable as int) + " this build cannot name"@
}

/// The counts of what landed. Three states and not two: a Leios-signed object had its signature
/// checked here and only its pool taken on the server's word.
pub open spec fn landed_line(report: Report, into: Seq<char>) -> Seq<char> {
    text::decimal(report.objects as int) + " objects into "@ + into + ", "@ + text::decimal(
        report.bytes as int,
    ) + " bytes; "@ + text::decimal(report.cold_signed as int) + " cold-signed, "@ + text::decimal(
        report.leios_signed as int,
    ) + " Leios-signed, "@ + text::decimal(report.unattested as int) + " unattested, "@
        + text::decimal(report.rejected@.len() as int) + " not written"@
}

/// How to read what landed.
pub open spec fn read_line(into: Seq<char>, kind: Option<Kind>) -> Seq<char> {
    "read them with: duckdb -c \"select * from "@ + recipe::read_of(into, kind) + "\""@
}

/// What a run says when it is through, line by line: the refused keys first, because a key nobody
/// may trust is the news and the counts are the context for it.
pub open spec fn lines_of(
    report: Report,
    prefix: Seq<char>,
    into: Option<Seq<char>>,
    kind: Option<Kind>,
) -> Seq<Seq<char>> {
    report.rejected@.map_values(|rejected: Rejected| refused_line(rejected)).push(
        listing_line(report, prefix),
    ) + (match into {
        Some(into) => seq![landed_line(report, into), read_line(into, kind)],
        None => Seq::empty(),
    })
}

fn listing_words(report: &Report, prefix: &str) -> (r: String)
    requires
        report.settled() <= u64::MAX,
    ensures
        r@ == listing_line(*report, prefix@),
{
    let mut r = text::decimal_of(report.listed() as u128);
    r.append(" keys under ");
    r.append(prefix);
    r.append("; ");
    r.append(text::decimal_of(report.selected() as u128).as_str());
    r.append(" selected, ");
    r.append(text::decimal_of(report.passed as u128).as_str());
    r.append(" outside the selection, ");
    r.append(text::decimal_of(report.unnameable as u128).as_str());
    r.append(" this build cannot name");
    r
}

fn landed_words(report: &Report, into: &str) -> (r: String)
    ensures
        r@ == landed_line(*report, into@),
{
    let mut r = text::decimal_of(report.objects as u128);
    r.append(" objects into ");
    r.append(into);
    r.append(", ");
    r.append(text::decimal_of(report.bytes as u128).as_str());
    r.append(" bytes; ");
    r.append(text::decimal_of(report.cold_signed as u128).as_str());
    r.append(" cold-signed, ");
    r.append(text::decimal_of(report.leios_signed as u128).as_str());
    r.append(" Leios-signed, ");
    r.append(text::decimal_of(report.unattested as u128).as_str());
    r.append(" unattested, ");
    r.append(text::decimal_of(report.rejected.len() as u128).as_str());
    r.append(" not written");
    r
}

/// What a run says when it is through. `into` is where it wrote, and nothing for a listing.
pub fn lines(report: &Report, prefix: &str, into: Option<&str>, kind: Option<Kind>) -> (r: Vec<
    String,
>)
    requires
        report.settled() <= u64::MAX,
    ensures
        text::views(r@) == lines_of(*report, prefix@, text::view_of_str(into), kind),
{
    let mut r: Vec<String> = Vec::new();
    let ghost refused = report.rejected@.map_values(|rejected: Rejected| refused_line(rejected));
    for i in 0..report.rejected.len()
        invariant
            refused == report.rejected@.map_values(|rejected: Rejected| refused_line(rejected)),
            text::views(r@) == refused.take(i as int),
    {
        let mut line = String::from_str("not written: ");
        line.append(report.rejected[i].key.as_str());
        line.append(" ");
        line.append(report.rejected[i].reason.as_str());
        let ghost before = r@;
        r.push(line);
        assert(text::views(r@) =~= text::views(before).push(line@));
        assert(refused.take(i + 1) =~= refused.take(i as int).push(refused[i as int]));
    }
    assert(refused.take(refused.len() as int) =~= refused);
    r.push(listing_words(report, prefix));
    assert(text::views(r@) =~= refused.push(listing_line(*report, prefix@)));
    if let Some(into) = into {
        let ghost before = r@;
        r.push(landed_words(report, into));
        let mut line = String::from_str("read them with: duckdb -c \"select * from ");
        line.append(recipe::read(into, kind).as_str());
        line.append("\"");
        r.push(line);
        assert(text::views(r@) =~= text::views(before) + seq![
            landed_line(*report, into@),
            read_line(into@, kind),
        ]);
    } else {
        assert(text::views(r@) =~= text::views(r@) + Seq::<Seq<char>>::empty());
    }
    r
}

/// Whether a run that is through succeeded: it did where it refused nothing it selected.
pub fn outcome(report: &Report) -> (r: Result<(), Fatal>)
    ensures
        match r {
            Ok(()) => report.rejected@.len() == 0,
            Err(error) => report.rejected@.len() > 0 && error == (Fatal::NotWritten {
                count: report.rejected@.len() as usize,
            }),
        },
{
    let count: usize = report.rejected.len();
    if count == 0 {
        Ok(())
    } else {
        Err(Fatal::NotWritten { count })
    }
}

/// A run that is through succeeds exactly where nothing that it selected was refused, and one that
/// does not says how many were.
pub proof fn a_run_succeeds_whole(report: &Report, given: Result<(), Fatal>)
    requires
        call_ensures(outcome, (report,), given),
    ensures
        given is Ok <==> report.rejected@.len() == 0,
        given matches Err(Fatal::NotWritten { count }) ==> count == report.rejected@.len() as usize,
        given is Err ==> given->Err_0 is NotWritten,
{
}

/// A summary names every object that was refused, in their order and each with its reason, before
/// it counts them; where objects were written it says what of them, and how to read them.
pub proof fn a_summary_names_every_refusal(
    report: Report,
    prefix: Seq<char>,
    into: Option<Seq<char>>,
    kind: Option<Kind>,
    i: int,
)
    ensures
        ({
            let lines = lines_of(report, prefix, into, kind);
            let n = report.rejected@.len() as int;
            &&& lines.len() == n + if into is Some {
                3int
            } else {
                1
            }
            &&& 0 <= i < n ==> lines[i] == "not written: "@ + report.rejected@[i].key@ + " "@
                + report.rejected@[i].reason@
            &&& lines[n] == listing_line(report, prefix)
            &&& into is Some ==> lines[n + 1] == landed_line(report, into->0) && lines[n + 2]
                == read_line(into->0, kind)
        }),
{
}

}
