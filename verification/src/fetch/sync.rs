//! The sync: page the listing from the cursor, write each object down under the key it is filed
//! as, advance the cursor behind it. There is no manifest and nothing to reconcile. The objects
//! on disk plus the cursor are the whole state of a sync.
//!
//! What a sync does next, and what it makes of what came back, is decided here. Whoever drives it
//! lists, downloads, writes and saves as it says.

use vstd::prelude::*;

use crate::count::NonZeroU64;
use crate::fetch::cursor;
use crate::fetch::cursor::{Cursor, CursorError};
use crate::fetch::pull;
use crate::fetch::pull::{Object, PullError};
use crate::fetch::select;
use crate::fetch::select::{Days, Selected, Selection};
use crate::fetch::verification::{Insist, Verification};
use crate::key;
use crate::key::ObjectName;
use crate::outside;
use crate::path;
use crate::server::archive;
use crate::server::authority;
use crate::server::intake;
use crate::server::ratelimit;
use crate::text;
use crate::wire::agent;
use crate::wire::attestation;
use crate::wire::attestation::Attestation;
use crate::wire::http::Listing;
use crate::wire::pool;

verus! {

/// What one run moved, and what it did not. `passed` and `unnameable` are counted rather than
/// dropped quietly: a filter that selected nothing and a bucket holding objects this build cannot
/// name look the same otherwise.
#[derive(Debug, PartialEq, Eq)]
pub struct Report {
    /// Written down; in a listing, selected.
    pub objects: u64,
    pub bytes: u64,
    /// Listed, and outside the selection.
    pub passed: u64,
    /// Listed, and not a key that names an object, so no selection could answer for it.
    pub unnameable: u64,
    /// Written, under a cold key whose pool is the one the object is filed under.
    pub cold_signed: u64,
    /// Written, under a Leios key: the signature stands, and the pool is the server's word.
    pub leios_signed: u64,
    /// Written with nothing to check it by.
    pub unattested: u64,
    /// Named rather than counted: an object nobody may trust is a key somebody has to look at.
    /// Each of these was not written.
    pub rejected: Vec<Rejected>,
}

/// An object the run refused to write down, and why.
#[derive(Debug, PartialEq, Eq)]
pub struct Rejected {
    pub key: String,
    pub reason: String,
}

/// What a written object was checked by.
#[derive(Debug, Clone, Copy, PartialEq, Eq, Structural)]
pub enum Standing {
    ColdSigned,
    LeiosSigned,
    Unattested,
}

/// Why an object was not written.
#[derive(Debug, Clone, Copy, PartialEq, Eq, Structural)]
pub enum Fault {
    /// Its bytes did not verify.
    Verdict,
    /// It is below the bar the run set.
    Bar,
    /// It is over the size the run holds.
    Bound,
}

/// Why a run stopped.
#[derive(Debug)]
pub enum SyncError {
    Pull(PullError),
    Cursor(CursorError),
    /// The keys are the server's, and this is what keeps one of them from naming a path outside
    /// the directory the operator pointed at.
    NotAKey { key: String },
    Stuck { after: String },
    Write { path: String, reason: String },
}

/// What a `SyncError` is, over plain values.
pub enum SyncFault {
    Pull(pull::PullFault),
    Cursor(cursor::CursorFault),
    NotAKey { key: Seq<char> },
    Stuck { after: Seq<char> },
    Write { path: Seq<char>, reason: Seq<char> },
}

impl View for SyncError {
    type V = SyncFault;

    open spec fn view(&self) -> SyncFault {
        match *self {
            SyncError::Pull(error) => SyncFault::Pull(error@),
            SyncError::Cursor(error) => SyncFault::Cursor(error@),
            SyncError::NotAKey { key } => SyncFault::NotAKey { key: key@ },
            SyncError::Stuck { after } => SyncFault::Stuck { after: after@ },
            SyncError::Write { path, reason } => SyncFault::Write { path: path@, reason: reason@ },
        }
    }
}

impl SyncFault {
    /// What an operator reads.
    pub open spec fn spelled(self) -> Seq<char> {
        match self {
            SyncFault::Pull(fault) => fault.spelled(),
            SyncFault::Cursor(fault) => fault.spelled(),
            SyncFault::NotAKey { key } => crate::outside::quoted(key)
                + " is not a relative object key, so it names no file under the download directory"@,
            SyncFault::Stuck { after } => "the listing did not advance past "@
                + crate::outside::quoted(after) + ", so the server is not reading the cursor"@,
            SyncFault::Write { path, reason } => "cannot write "@ + path + ": "@ + reason,
        }
    }
}

impl SyncError {
    /// What an operator reads.
    pub fn message(&self) -> (r: String)
        ensures
            r@ == self@.spelled(),
    {
        match self {
            SyncError::Pull(error) => error.message(),
            SyncError::Cursor(error) => error.message(),
            SyncError::NotAKey { key } => {
                let mut r = crate::outside::quote(key.as_str());
                r.append(
                    " is not a relative object key, so it names no file under the download directory",
                );
                r
            },
            SyncError::Stuck { after } => {
                let mut r = String::from_str("the listing did not advance past ");
                r.append(crate::outside::quote(after.as_str()).as_str());
                r.append(", so the server is not reading the cursor");
                r
            },
            SyncError::Write { path, reason } => {
                let mut r = String::from_str("cannot write ");
                r.append(path.as_str());
                r.append(": ");
                r.append(reason.as_str());
                r
            },
        }
    }
}

impl Report {
    /// How many keys the run was through with: each listed key is in exactly one of these.
    pub open spec fn settled(self) -> int {
        self.objects + self.rejected@.len() + self.passed + self.unnameable
    }

    /// Whether what was written adds up by what it was checked by.
    pub open spec fn adds_up(self) -> bool {
        self.objects == self.cold_signed + self.leios_signed + self.unattested
    }

    /// Whether one more key, of `bytes` bytes, can be counted.
    pub open spec fn has_room(self, bytes: int) -> bool {
        &&& self.objects < u64::MAX
        &&& self.passed < u64::MAX
        &&& self.unnameable < u64::MAX
        &&& self.bytes + bytes <= u64::MAX
        &&& self.settled() < u64::MAX
    }

    /// Nothing moved.
    pub fn nothing() -> (r: Report)
        ensures
            r.settled() == 0,
            r.adds_up(),
            r.bytes == 0,
            r.objects == 0,
            r.passed == 0,
            r.unnameable == 0,
            r.rejected@.len() == 0,
    {
        Report {
            objects: 0,
            bytes: 0,
            passed: 0,
            unnameable: 0,
            cold_signed: 0,
            leios_signed: 0,
            unattested: 0,
            rejected: Vec::new(),
        }
    }

    /// Whether one more key, of `bytes` bytes, can be counted.
    pub fn can_count(&self, bytes: u64) -> (r: bool)
        ensures
            r == self.has_room(bytes as int),
    {
        let refused: u128 = self.rejected.len() as u128;
        let settled: u128 = self.objects as u128 + refused + self.passed as u128
            + self.unnameable as u128;
        self.objects < u64::MAX && self.passed < u64::MAX && self.unnameable < u64::MAX
            && self.bytes <= u64::MAX - bytes && settled < u64::MAX as u128
    }

    /// How many keys the prefix listed.
    pub fn listed(&self) -> (r: u64)
        requires
            self.settled() <= u64::MAX,
        ensures
            r == self.settled(),
    {
        self.objects + self.rejected.len() as u64 + self.passed + self.unnameable
    }

    /// How many of them the selection kept.
    pub fn selected(&self) -> (r: u64)
        requires
            self.settled() <= u64::MAX,
        ensures
            r == self.objects + self.rejected@.len(),
            r + self.passed + self.unnameable == self.settled(),
    {
        self.objects + self.rejected.len() as u64
    }
}

/// What a downloaded object is to a run, or why it is not written: two halves, and both are
/// needed. The signature says a holder of that key sealed exactly these bytes, and the hash says
/// which pool that key speaks for. Only a cold key has the second half.
pub open spec fn judged(
    key: Seq<char>,
    bytes: Seq<u8>,
    claim: Option<attestation::Claim>,
    leios_stands: bool,
    insist: Insist,
) -> Result<Standing, (Fault, Seq<char>)> {
    match claim {
        None => if insist != Insist::Nothing {
            Err((Fault::Bar, "carries no key and signature to check it with"@))
        } else {
            Ok(Standing::Unattested)
        },
        Some(claim) => if !claim.stands(bytes, leios_stands) {
            Err((Fault::Verdict, "the signature does not stand over the bytes as downloaded"@))
        } else {
            match key::parsed(key) {
                Err(reason) => Err((Fault::Verdict, key::key_fault_text(key, reason))),
                Ok(name) => match claim.names() {
                    None => if insist == Insist::ColdSigned {
                        Err(
                            (
                                Fault::Bar,
                                "the signature verified under a Leios key, which names no pool to check the filing against"@,
                            ),
                        )
                    } else {
                        Ok(Standing::LeiosSigned)
                    },
                    Some(signer) => if signer != name.pool {
                        Err(
                            (
                                Fault::Verdict,
                                "signed by "@ + pool::bech32_of_pool(signer)
                                    + ", and filed under "@ + pool::bech32_of_pool(name.pool),
                            ),
                        )
                    } else {
                        Ok(Standing::ColdSigned)
                    },
                },
            }
        },
    }
}

/// What an attestation claims, where there is one.
pub open spec fn claim_of(attestation: Option<Attestation>) -> Option<attestation::Claim> {
    match attestation {
        Some(attestation) => Some(attestation@),
        None => None,
    }
}

/// Whether these bytes may be written down, and as what. `leios_stands` is what a Leios verifier
/// answered where a Leios key signed.
pub fn checked(key: &str, object: &Object, leios_stands: bool, insist: Insist) -> (r: Result<
    Standing,
    (Fault, String),
>)
    ensures
        match r {
            Ok(standing) => judged(
                key@,
                object.bytes@,
                claim_of(object.attestation),
                leios_stands,
                insist,
            ) == Ok::<Standing, (Fault, Seq<char>)>(standing),
            Err((fault, reason)) => judged(
                key@,
                object.bytes@,
                claim_of(object.attestation),
                leios_stands,
                insist,
            ) == Err::<Standing, (Fault, Seq<char>)>((fault, reason@)),
        },
{
    let attestation = match &object.attestation {
        None => {
            if insist != Insist::Nothing {
                return Err(
                    (
                        Fault::Bar,
                        String::from_str("carries no key and signature to check it with"),
                    ),
                );
            }
            return Ok(Standing::Unattested);
        },
        Some(attestation) => attestation,
    };
    if !attestation.verifies(object.bytes.as_slice(), leios_stands) {
        return Err(
            (
                Fault::Verdict,
                String::from_str("the signature does not stand over the bytes as downloaded"),
            ),
        );
    }
    let name = match ObjectName::parse(key) {
        Err(error) => {
            return Err((Fault::Verdict, error.message()));
        },
        Ok(name) => name,
    };
    match attestation.attributes() {
        None => {
            if insist == Insist::ColdSigned {
                return Err(
                    (
                        Fault::Bar,
                        String::from_str(
                            "the signature verified under a Leios key, which names no pool to check the filing against",
                        ),
                    ),
                );
            }
            Ok(Standing::LeiosSigned)
        },
        Some(signer) => {
            if !signer.same(&name.pool_id) {
                let mut reason = String::from_str("signed by ");
                reason.append(signer.to_bech32().as_str());
                reason.append(", and filed under ");
                reason.append(name.pool_id.to_bech32().as_str());
                return Err((Fault::Verdict, reason));
            }
            Ok(Standing::ColdSigned)
        },
    }
}

/// What a higher bar takes a lower one takes too, and as the same.
pub proof fn lower_bar_takes_no_less(
    key: Seq<char>,
    bytes: Seq<u8>,
    claim: Option<attestation::Claim>,
    leios_stands: bool,
    higher: Insist,
    lower: Insist,
)
    requires
        lower.height() <= higher.height(),
    ensures
        judged(key, bytes, claim, leios_stands, higher) matches Ok(standing) ==> judged(
            key,
            bytes,
            claim,
            leios_stands,
            lower,
        ) == Ok::<Standing, (Fault, Seq<char>)>(standing),
{
}

/// Bytes that do not verify are refused under every bar.
pub proof fn no_bar_takes_what_does_not_verify(
    key: Seq<char>,
    bytes: Seq<u8>,
    claim: attestation::Claim,
    leios_stands: bool,
    insist: Insist,
)
    requires
        !claim.stands(bytes, leios_stands),
    ensures
        judged(key, bytes, Some(claim), leios_stands, insist) matches Err((fault, _)) && fault
            == Fault::Verdict,
{
}

/// What lands as cold-signed was signed by the pool it is filed under.
pub proof fn cold_signed_is_the_pools_own(
    key: Seq<char>,
    bytes: Seq<u8>,
    claim: attestation::Claim,
    leios_stands: bool,
    insist: Insist,
)
    requires
        judged(key, bytes, Some(claim), leios_stands, insist) == Ok::<
            Standing,
            (Fault, Seq<char>),
        >(Standing::ColdSigned),
    ensures
        claim.stands(bytes, leios_stands),
        key::parsed(key) matches Ok(name) && claim.names() == Some(name.pool),
{
}

/// The file under `into` an object key names, or nothing for a key that names anything else: an
/// absolute path, a parent directory, or nothing at all.
pub open spec fn destination_of(into: Seq<char>, key: Seq<char>) -> Option<Seq<char>> {
    if path::stays_below(key) {
        Some(path::joined_to(into, key))
    } else {
        None
    }
}

/// The file under `into` an object key names.
pub fn destination(into: &str, key: &str) -> (r: Option<String>)
    ensures
        text::view_of(r) == destination_of(into@, key@),
{
    if path::is_below(key) {
        Some(path::join(into, key))
    } else {
        None
    }
}

/// The listing walked page by page. Each page resumes from the last key of the one before it, so
/// what bounds a page is the server's and never this side's.
#[derive(Debug)]
pub struct Pages {
    pub after: String,
    /// The last page has been handed out.
    pub done: bool,
}

/// What a page that came back is: the next keys, the end, or no advance at all.
pub enum Paged {
    Keys { keys: Seq<Seq<char>>, last: Seq<char>, done: bool },
    End,
    Stuck,
}

/// What a page that came back after `after` is. The route reads `after` exclusively, so a page
/// ending at or before it is not the next page. An empty page the server calls truncated says
/// there is more and hands none of it over.
pub open spec fn paged(after: Seq<char>, keys: Seq<Seq<char>>, truncated: bool) -> Paged {
    if keys.len() > 0 && text::before(after, keys.last()) {
        Paged::Keys { keys, last: keys.last(), done: !truncated }
    } else if keys.len() == 0 && !truncated {
        Paged::End
    } else {
        Paged::Stuck
    }
}

impl Pages {
    /// The walk behind a key.
    pub fn from(after: &str) -> (r: Pages)
        ensures
            r.after@ == after@,
            !r.done,
    {
        Pages { after: String::from_str(after), done: false }
    }

    /// What the page that was asked for comes to: its keys, nothing at the end, or the refusal of
    /// a listing that does not advance.
    pub fn next(&mut self, page: Listing) -> (r: Result<Option<Vec<String>>, SyncError>)
        requires
            !old(self).done,
        ensures
            match paged(old(self).after@, text::views(page.keys@), page.truncated) {
                Paged::Keys { keys, last, done } => r matches Ok(Some(found)) && text::views(found@)
                    == keys && final(self).after@ == last && final(self).done == done,
                Paged::End => r matches Ok(None) && final(self).after@ == old(self).after@
                    && final(self).done,
                Paged::Stuck => r matches Err(error) && error@ == (SyncFault::Stuck {
                    after: old(self).after@,
                }) && final(self).after@ == old(self).after@ && final(self).done,
            },
    {
        let keys = page.keys;
        let ghost words = text::views(keys@);
        if keys.len() > 0 {
            let last = keys[keys.len() - 1].clone();
            assert(words.last() == keys@.last()@);
            if text::precedes(self.after.as_str(), last.as_str()) {
                self.after = last;
                self.done = !page.truncated;
                return Ok(Some(keys));
            }
        } else if !page.truncated {
            self.done = true;
            return Ok(None);
        }
        self.done = true;
        Err(SyncError::Stuck { after: self.after.clone() })
    }
}

/// Every page of a walk that goes on ends behind the one before it, so a walk never hands out one
/// page twice.
pub proof fn walk_advances(after: Seq<char>, keys: Seq<Seq<char>>, truncated: bool)
    ensures
        paged(after, keys, truncated) matches Paged::Keys { last, .. } ==> text::before(after, last)
            && last != after,
{
    text::lemma_before_irreflexive(after);
}

/// No page that an archive of this library answers leaves a walk stuck.
pub proof fn own_pages_move_the_walk(
    held: Seq<Seq<char>>,
    prefix: Seq<char>,
    after: Seq<char>,
    max_keys: int,
)
    requires
        max_keys > 0,
    ensures
        ({
            let (keys, truncated) = archive::page_held(held, prefix, after, max_keys);
            !(paged(after, keys, truncated) is Stuck)
        }),
{
    let (keys, truncated) = archive::page_held(held, prefix, after, max_keys);
    let all = archive::in_order(held.filter(archive::on_page(prefix, after)));
    archive::page_is_in_key_order(held, prefix, after, keys.len() as int);
    if keys.len() > 0 {
        assert(keys.last() == all[keys.len() - 1]);
    }
}

/// What a sync was asked for.
#[derive(Debug)]
pub struct Asked {
    pub prefix: String,
    pub selection: Selection,
    pub days: Days,
    pub verification: Verification,
    /// Where objects land, one file per key, directories as the key spells them.
    pub into: String,
}

/// Everything one sync needs beside the archive.
#[derive(Debug)]
pub struct Destination {
    /// Where objects land.
    pub into: String,
    /// Where the cursor is kept.
    pub state: String,
}

/// Where a sync stands.
#[derive(Debug)]
pub enum State {
    /// The next page is wanted.
    Listing,
    /// The next key is to be looked at.
    Choosing,
    /// An object is being downloaded.
    Downloading { key: String, path: String },
    /// An object is being written.
    Writing { key: String, path: String, standing: Standing, bytes: Vec<u8> },
    /// The cursor moved and has to be written down before anything else.
    Saving,
    /// Every key the walk reached is behind the cursor.
    Finished,
    /// The run stopped.
    Stopped,
}

/// What a sync needs done next.
#[derive(Debug)]
pub enum Action {
    /// Ask for the page of keys under `prefix` that sort after `after`.
    List { prefix: String, after: String },
    /// Download the object of a key, up to a size.
    Download { key: String, max_object_bytes: NonZeroU64 },
    /// Write the downloaded bytes to a path.
    Write { path: String },
    /// Write the cursor down.
    Save,
    /// Nothing more: the report is whole.
    Finish,
    /// Nothing more: the run stopped on this.
    Stop { error: SyncError },
}

/// What a page that was asked for came to, over plain values.
pub open spec fn page_of(page: Result<Listing, PullError>) -> Result<
    (Seq<Seq<char>>, bool),
    pull::PullFault,
> {
    match page {
        Ok(page) => Ok((text::views(page.keys@), page.truncated)),
        Err(error) => Err(error@),
    }
}

/// What a download came to, over plain values.
pub open spec fn found_of(object: Result<Object, PullError>) -> Result<
    (Seq<u8>, Option<attestation::Claim>),
    pull::PullFault,
> {
    match object {
        Ok(object) => Ok((object.bytes@, claim_of(object.attestation))),
        Err(error) => Err(error@),
    }
}

/// One sync as it goes.
pub struct Run {
    pub asked: Asked,
    pub cursor: Cursor,
    pub report: Report,
    pub pages: Pages,
    pub keys: Vec<String>,
    pub at: usize,
    pub state: State,
    /// The keys the run is through with, in the order it met them.
    pub settled: Ghost<Seq<Seq<char>>>,
    /// Those of them whose objects it wrote.
    pub landed: Ghost<Seq<Seq<char>>>,
}

impl Run {
    /// The key that is looked at.
    pub open spec fn key_now(self) -> Seq<char> {
        self.keys@[self.at as int]@
    }

    /// What holds of a sync at every step. The counts are of the keys it is through with, one
    /// count each, and the cursor stands at the last of them. A key that is downloaded or written
    /// is not behind the cursor yet, and names a file below the download directory. What is
    /// written was judged fit to be.
    pub open spec fn wf(self) -> bool {
        &&& self.report.adds_up()
        &&& self.report.settled() == self.settled@.len()
        &&& self.report.objects == self.landed@.len()
        &&& self.settled@.len() > 0 ==> self.cursor.after@ == self.settled@.last()
        &&& self.at <= self.keys@.len()
        &&& match self.state {
            State::Listing => !self.pages.done && self.at == self.keys@.len(),
            State::Choosing => true,
            State::Downloading { key, path } => {
                &&& self.at < self.keys@.len()
                &&& key@ == self.key_now()
                &&& self.asked.selection@.selects(key@) == Selected::Yes
                &&& destination_of(self.asked.into@, key@) == Some(path@)
            },
            State::Writing { key, path, standing, bytes } => {
                &&& self.at < self.keys@.len()
                &&& key@ == self.key_now()
                &&& self.asked.selection@.selects(key@) == Selected::Yes
                &&& destination_of(self.asked.into@, key@) == Some(path@)
                &&& exists|claim: Option<attestation::Claim>, leios_stands: bool|
                    #[trigger] judged(
                        key@,
                        bytes@,
                        claim,
                        leios_stands,
                        self.asked.verification.insist,
                    ) == Ok::<Standing, (Fault, Seq<char>)>(standing)
            },
            State::Saving => {
                &&& self.at < self.keys@.len()
                &&& self.settled@.len() > 0
                &&& self.settled@.last() == self.key_now()
            },
            State::Finished => true,
            State::Stopped => true,
        }
    }

    /// Whether nothing but the state differs.
    pub open spec fn same_but_state(self, other: Run) -> bool {
        &&& self.asked == other.asked
        &&& self.cursor == other.cursor
        &&& self.report == other.report
        &&& self.pages == other.pages
        &&& self.keys == other.keys
        &&& self.at == other.at
        &&& self.settled == other.settled
        &&& self.landed == other.landed
    }

    /// Whether the run stopped where it stood.
    pub open spec fn stops(self, before: Run) -> bool {
        &&& self.same_but_state(before)
        &&& self.state == State::Stopped
    }

    /// Whether one more key was settled, landed or not, and nothing else was touched but the counts
    /// and the cursor.
    pub open spec fn settles(self, before: Run, key: Seq<char>, landed: bool) -> bool {
        &&& self.asked == before.asked
        &&& self.pages == before.pages
        &&& self.keys == before.keys
        &&& self.at == before.at
        &&& self.settled@ == before.settled@.push(key)
        &&& self.landed@ == if landed {
            before.landed@.push(key)
        } else {
            before.landed@
        }
        &&& self.state == State::Saving
    }

    /// Whether this is a sync that has done nothing yet.
    pub open spec fn begins(self) -> bool {
        &&& self.wf()
        &&& self.state == State::Listing
        &&& self.settled@.len() == 0
        &&& self.keys@.len() == 0
        &&& self.pages.after@ == self.asked.days.start_spec(self.cursor.after@)
        &&& self.report.bytes == 0
    }

    /// Whether the next key was looked at, or the want of one: a key that needs nothing done but to
    /// be counted is counted and nothing else is, and the cursor moves past it.
    pub open spec fn looks(self, before: Run) -> bool {
        if before.at == before.keys@.len() {
            &&& self.same_but_state(before)
            &&& self.state == if before.pages.done {
                State::Finished
            } else {
                State::Listing
            }
        } else {
            let key = before.key_now();
            if before.asked.days.past_spec(key) {
                &&& self.same_but_state(before)
                &&& self.state == State::Finished
            } else {
                match before.asked.selection@.selects(key) {
                    Selected::No => {
                        &&& self.settles(before, key, false)
                        &&& self.report == (Report {
                            passed: (before.report.passed + 1) as u64,
                            ..before.report
                        })
                        &&& self.cursor@ == before.cursor@.advanced(key)
                    },
                    Selected::Unnameable => {
                        &&& self.settles(before, key, false)
                        &&& self.report == (Report {
                            unnameable: (before.report.unnameable + 1) as u64,
                            ..before.report
                        })
                        &&& self.cursor@ == before.cursor@.advanced(key)
                    },
                    Selected::Yes => {
                        &&& self.same_but_state(before)
                        &&& match destination_of(before.asked.into@, key) {
                            None => self.state == State::Stopped,
                            Some(path) => self.state matches State::Downloading {
                                key: asked,
                                path: into,
                            } && asked@ == key && into@ == path,
                        }
                    },
                }
            }
        }
    }

    /// Whether a page was taken: its keys and whether there is more, or why there is none.
    pub open spec fn lists(
        self,
        before: Run,
        page: Result<(Seq<Seq<char>>, bool), pull::PullFault>,
    ) -> bool {
        &&& self.asked == before.asked
        &&& self.cursor == before.cursor
        &&& self.report == before.report
        &&& self.settled == before.settled
        &&& self.landed == before.landed
        &&& match page {
            Err(_) => self.stops(before),
            Ok((keys, truncated)) => match paged(before.pages.after@, keys, truncated) {
                Paged::Keys { keys, last, done } => {
                    &&& self.state == State::Choosing
                    &&& text::views(self.keys@) == keys
                    &&& self.at == 0
                    &&& self.pages.after@ == last
                    &&& self.pages.done == done
                },
                Paged::End => {
                    &&& self.state == State::Finished
                    &&& self.keys == before.keys
                    &&& self.at == before.at
                    &&& self.pages.after@ == before.pages.after@
                    &&& self.pages.done
                },
                Paged::Stuck => {
                    &&& self.state == State::Stopped
                    &&& self.keys == before.keys
                    &&& self.at == before.at
                    &&& self.pages.after@ == before.pages.after@
                    &&& self.pages.done
                },
            },
        }
    }

    /// Whether a download was taken: an object fit to be written is to be written next, one that is
    /// not is refused, and so is one over the bound; anything else stops the run.
    pub open spec fn judges(
        self,
        before: Run,
        found: Result<(Seq<u8>, Option<attestation::Claim>), pull::PullFault>,
        leios_stands: bool,
    ) -> bool {
        match found {
            Ok((bytes, claim)) => match judged(
                before.key_now(),
                bytes,
                claim,
                leios_stands,
                before.asked.verification.insist,
            ) {
                Ok(standing) => {
                    &&& self.same_but_state(before)
                    &&& self.state matches State::Writing { key, path, standing: as_, bytes: held }
                        && key@ == before.key_now() && destination_of(
                        before.asked.into@,
                        before.key_now(),
                    ) == Some(path@) && as_ == standing && held@ == bytes
                },
                Err((fault, reason)) => self.refuses(before, fault, reason),
            },
            Err(fault) => if fault is Oversized {
                self.refuses(before, Fault::Bound, fault.spelled())
            } else {
                self.stops(before)
            },
        }
    }

    /// Whether the object in hand was written: it is counted, by what it was checked by and with
    /// its bytes, and nothing else is, and the cursor moves past it.
    pub open spec fn writes(self, before: Run) -> bool {
        before.state matches State::Writing { standing, bytes, .. } && {
            &&& self.settles(before, before.key_now(), true)
            &&& self.cursor@ == before.cursor@.advanced(before.key_now())
            &&& self.report == (Report {
                objects: (before.report.objects + 1) as u64,
                bytes: (before.report.bytes + bytes@.len()) as u64,
                cold_signed: (before.report.cold_signed + if standing == Standing::ColdSigned {
                    1int
                } else {
                    0
                }) as u64,
                leios_signed: (before.report.leios_signed + if standing == Standing::LeiosSigned {
                    1int
                } else {
                    0
                }) as u64,
                unattested: (before.report.unattested + if standing == Standing::Unattested {
                    1int
                } else {
                    0
                }) as u64,
                ..before.report
            })
        }
    }

    /// Whether the cursor was saved: the next key is to be looked at.
    pub open spec fn saves(self, before: Run) -> bool {
        &&& self.asked == before.asked
        &&& self.cursor == before.cursor
        &&& self.report == before.report
        &&& self.pages == before.pages
        &&& self.keys == before.keys
        &&& self.settled == before.settled
        &&& self.landed == before.landed
        &&& self.at == before.at + 1
        &&& self.state == State::Choosing
    }

    /// The sync that a cursor resumes.
    pub fn start(asked: Asked, cursor: Cursor) -> (r: Run)
        ensures
            r.begins(),
            r.asked == asked,
            r.cursor == cursor,
    {
        let after = asked.days.start(cursor.after.as_str());
        Run {
            asked,
            cursor,
            report: Report::nothing(),
            pages: Pages::from(after.as_str()),
            keys: Vec::new(),
            at: 0,
            state: State::Listing,
            settled: Ghost(Seq::empty()),
            landed: Ghost(Seq::empty()),
        }
    }

    /// What the sync needs done next. Where a key needs nothing done but to be counted, it is
    /// counted and the cursor moves past it.
    pub fn next(&mut self) -> (r: Action)
        requires
            old(self).wf(),
            old(self).report.has_room(0),
        ensures
            final(self).wf(),
            match old(self).state {
                State::Listing => *final(self) == *old(self) && (r matches Action::List {
                    prefix,
                    after,
                } && prefix@ == old(self).asked.prefix@ && after@ == old(self).pages.after@),
                State::Downloading { key, .. } => *final(self) == *old(self) && (
                r matches Action::Download { key: asked, max_object_bytes } && asked@ == key@
                    && max_object_bytes == old(self).asked.verification.max_object_bytes),
                State::Writing { path, .. } => *final(self) == *old(self) && (
                r matches Action::Write { path: asked } && asked@ == path@),
                State::Saving => *final(self) == *old(self) && r == Action::Save,
                State::Finished => *final(self) == *old(self) && r == Action::Finish,
                State::Stopped => *final(self) == *old(self) && r == Action::Finish,
                State::Choosing => final(self).looks(*old(self)) && if old(self).at == old(
                    self,
                ).keys@.len() {
                    if old(self).pages.done {
                        r == Action::Finish
                    } else {
                        r matches Action::List { prefix, after } && prefix@ == old(
                            self,
                        ).asked.prefix@ && after@ == old(self).pages.after@
                    }
                } else {
                    let key = old(self).key_now();
                    if old(self).asked.days.past_spec(key) {
                        r == Action::Finish
                    } else if old(self).asked.selection@.selects(key) != Selected::Yes {
                        r == Action::Save
                    } else if destination_of(old(self).asked.into@, key) is None {
                        r matches Action::Stop { error } && error@ == (SyncFault::NotAKey { key })
                    } else {
                        r matches Action::Download { key: asked, max_object_bytes } && asked@ == key
                            && max_object_bytes == old(self).asked.verification.max_object_bytes
                    }
                },
            },
    {
        match &self.state {
            State::Listing => {
                return Action::List {
                    prefix: self.asked.prefix.clone(),
                    after: self.pages.after.clone(),
                };
            },
            State::Downloading { key, .. } => {
                return Action::Download {
                    key: key.clone(),
                    max_object_bytes: self.asked.verification.max_object_bytes,
                };
            },
            State::Writing { path, .. } => {
                return Action::Write { path: path.clone() };
            },
            State::Saving => {
                return Action::Save;
            },
            State::Finished => {
                return Action::Finish;
            },
            State::Stopped => {
                return Action::Finish;
            },
            State::Choosing => {},
        }
        if self.at == self.keys.len() {
            if self.pages.done {
                self.state = State::Finished;
                return Action::Finish;
            }
            self.state = State::Listing;
            return Action::List {
                prefix: self.asked.prefix.clone(),
                after: self.pages.after.clone(),
            };
        }
        let key = self.keys[self.at].clone();
        if self.asked.days.past(key.as_str()) {
            self.state = State::Finished;
            return Action::Finish;
        }
        match self.asked.selection.selects(key.as_str()) {
            Selected::No => {
                self.report.passed = self.report.passed + 1;
                self.cursor.advance(key.as_str());
                self.settled = Ghost(self.settled@.push(key@));
                self.state = State::Saving;
                Action::Save
            },
            Selected::Unnameable => {
                self.report.unnameable = self.report.unnameable + 1;
                self.cursor.advance(key.as_str());
                self.settled = Ghost(self.settled@.push(key@));
                self.state = State::Saving;
                Action::Save
            },
            Selected::Yes => match destination(self.asked.into.as_str(), key.as_str()) {
                None => {
                    self.state = State::Stopped;
                    Action::Stop { error: SyncError::NotAKey { key } }
                },
                Some(path) => {
                    self.state = State::Downloading { key: key.clone(), path };
                    Action::Download {
                        key,
                        max_object_bytes: self.asked.verification.max_object_bytes,
                    }
                },
            },
        }
    }

    /// Take the page that was asked for. A run that is refused here stops on the error.
    pub fn listed(&mut self, page: Result<Listing, PullError>) -> (r: Result<(), SyncError>)
        requires
            old(self).wf(),
            old(self).state == State::Listing,
        ensures
            final(self).wf(),
            final(self).lists(*old(self), page_of(page)),
            match page {
                Err(error) => r matches Err(fault) && fault@ == SyncFault::Pull(error@),
                Ok(page) => if paged(
                    old(self).pages.after@,
                    text::views(page.keys@),
                    page.truncated,
                ) is Stuck {
                    r matches Err(fault) && fault@ == (SyncFault::Stuck {
                        after: old(self).pages.after@,
                    })
                } else {
                    r is Ok
                },
            },
    {
        let page = match page {
            Ok(page) => page,
            Err(error) => {
                self.state = State::Stopped;
                return Err(SyncError::Pull(error));
            },
        };
        match self.pages.next(page) {
            Ok(Some(keys)) => {
                self.keys = keys;
                self.at = 0;
                self.state = State::Choosing;
                Ok(())
            },
            Ok(None) => {
                self.state = State::Finished;
                Ok(())
            },
            Err(error) => {
                self.state = State::Stopped;
                Err(error)
            },
        }
    }

    /// Take the download that was asked for: an object fit to be written is to be written next;
    /// one that is not is named in the report and the cursor moves past it; anything else stops
    /// the run. `leios_stands` is what a Leios verifier answered where a Leios key signed.
    pub fn downloaded(&mut self, object: Result<Object, PullError>, leios_stands: bool) -> (r:
        Result<(), SyncError>)
        requires
            old(self).wf(),
            old(self).state is Downloading,
            old(self).report.has_room(0),
        ensures
            final(self).wf(),
            final(self).judges(*old(self), found_of(object), leios_stands),
            match object {
                Err(error) if !(error@ is Oversized) => r matches Err(fault) && fault@
                    == SyncFault::Pull(error@),
                _ => r is Ok,
            },
    {
        let key = self.keys[self.at].clone();
        match object {
            Err(error) => {
                let oversized: bool = match &error {
                    PullError::Oversized { .. } => true,
                    _ => false,
                };
                if oversized {
                    // An object over the bound is the run's to report and not to stop for: the
                    // operator raises the flag or leaves it, and the rest still syncs.
                    let reason = error.message();
                    self.refuse(Fault::Bound, reason);
                    return Ok(());
                }
                self.state = State::Stopped;
                Err(SyncError::Pull(error))
            },
            Ok(object) => {
                match checked(
                    key.as_str(),
                    &object,
                    leios_stands,
                    self.asked.verification.insist,
                ) {
                    Err((fault, reason)) => {
                        self.refuse(fault, reason);
                    },
                    Ok(standing) => {
                        // Written only once it is decided: an object nobody may trust never
                        // reaches the download directory.
                        let path = match &self.state {
                            State::Downloading { path, .. } => path.clone(),
                            _ => String::new(),
                        };
                        self.state = State::Writing { key, path, standing, bytes: object.bytes };
                    },
                }
                Ok(())
            },
        }
    }

    /// Whether the key that is looked at was refused: named in the report with the reason, and
    /// behind the cursor, which records it where its bytes did not verify.
    pub open spec fn refuses(self, before: Run, fault: Fault, reason: Seq<char>) -> bool {
        let key = before.key_now();
        &&& self.settles(before, key, false)
        &&& self.report == (Report { rejected: self.report.rejected, ..before.report })
        &&& self.report.rejected@.len() == before.report.rejected@.len() + 1
        &&& self.report.rejected@.last().key@ == key
        &&& self.report.rejected@.last().reason@ == reason
        &&& self.report.rejected@.drop_last() == before.report.rejected@
        &&& self.cursor@ == if fault == Fault::Verdict {
            before.cursor@.advanced_unverified(key)
        } else {
            before.cursor@.advanced(key)
        }
    }

    fn refuse(&mut self, fault: Fault, reason: String)
        requires
            old(self).wf(),
            old(self).state is Downloading,
            old(self).report.has_room(0),
        ensures
            final(self).wf(),
            final(self).refuses(*old(self), fault, reason@),
    {
        let key = self.keys[self.at].clone();
        if fault == Fault::Verdict {
            self.cursor.advance_unverified(key.as_str());
        } else {
            self.cursor.advance(key.as_str());
        }
        self.settled = Ghost(self.settled@.push(key@));
        let ghost before = self.report.rejected@;
        self.report.rejected.push(Rejected { key, reason });
        assert(self.report.rejected@.drop_last() =~= before);
        self.state = State::Saving;
    }

    /// Take the write that was asked for: the object is counted and the cursor moves past it, or
    /// the run stops on what kept it from being written, with the cursor still before it.
    pub fn written(&mut self, outcome: Result<(), String>) -> (r: Result<(), SyncError>)
        requires
            old(self).wf(),
            old(self).state is Writing,
            old(self).state matches State::Writing { bytes, .. } && old(self).report.has_room(
                bytes@.len() as int,
            ),
        ensures
            final(self).wf(),
            match outcome {
                Ok(()) => r is Ok && final(self).writes(*old(self)),
                Err(reason) => final(self).stops(*old(self)) && (old(
                    self,
                ).state matches State::Writing { path, .. } && r matches Err(fault) && fault@ == (
                SyncFault::Write { path: path@, reason: reason@ })),
            },
    {
        let key = self.keys[self.at].clone();
        let (path, standing, count) = match &self.state {
            State::Writing { path, standing, bytes, .. } => (
                path.clone(),
                *standing,
                bytes.len() as u64,
            ),
            _ => (String::new(), Standing::Unattested, 0u64),
        };
        match outcome {
            Err(reason) => {
                self.state = State::Stopped;
                Err(SyncError::Write { path, reason })
            },
            Ok(()) => {
                self.report.bytes = self.report.bytes + count;
                self.report.objects = self.report.objects + 1;
                match standing {
                    Standing::ColdSigned => {
                        self.report.cold_signed = self.report.cold_signed + 1;
                    },
                    Standing::LeiosSigned => {
                        self.report.leios_signed = self.report.leios_signed + 1;
                    },
                    Standing::Unattested => {
                        self.report.unattested = self.report.unattested + 1;
                    },
                }
                self.cursor.advance(key.as_str());
                self.settled = Ghost(self.settled@.push(key@));
                self.landed = Ghost(self.landed@.push(key@));
                self.state = State::Saving;
                Ok(())
            },
        }
    }

    /// Take the save that was asked for: the next key is looked at, or the run stops. `path` is
    /// where the cursor is kept.
    pub fn saved(&mut self, path: &str, outcome: Result<(), String>) -> (r: Result<(), SyncError>)
        requires
            old(self).wf(),
            old(self).state == State::Saving,
        ensures
            final(self).wf(),
            match outcome {
                Ok(()) => r is Ok && final(self).saves(*old(self)),
                Err(reason) => final(self).stops(*old(self)) && (r matches Err(fault) && fault@
                    == SyncFault::Cursor(
                    cursor::CursorFault::Write { path: path@, reason: reason@ },
                )),
            },
    {
        match outcome {
            Ok(()) => {
                assert(self.at < self.keys.len());
                self.at = self.at + 1;
                self.state = State::Choosing;
                Ok(())
            },
            Err(reason) => {
                self.state = State::Stopped;
                Err(
                    SyncError::Cursor(CursorError::Write { path: String::from_str(path), reason }),
                )
            },
        }
    }
}

/// How many of `keys` a selection answers so for.
pub open spec fn count_of(
    selection: select::Choice,
    keys: Seq<Seq<char>>,
    answer: Selected,
) -> int
    decreases keys.len(),
{
    if keys.len() == 0 {
        0
    } else {
        count_of(selection, keys.drop_last(), answer) + if selection.selects(keys.last())
            == answer {
            1int
        } else {
            0
        }
    }
}

/// Those of `keys` that a selection keeps, in their order.
pub open spec fn kept(selection: select::Choice, keys: Seq<Seq<char>>) -> Seq<Seq<char>> {
    keys.filter(|key: Seq<char>| selection.selects(key) == Selected::Yes)
}

/// The keys of one page up to the first past the last day.
pub open spec fn within(days: Days, keys: Seq<Seq<char>>) -> Seq<Seq<char>>
    decreases keys.len(),
{
    if keys.len() == 0 {
        keys
    } else if days.past_spec(keys[0]) {
        Seq::empty()
    } else {
        seq![keys[0]] + within(days, keys.skip(1))
    }
}

/// The keys of one page that the filters select, counted in the report and nothing downloaded.
/// Says beside them whether the walk is past its last day.
pub fn list(selection: &Selection, days: &Days, keys: &[String], report: &mut Report) -> (r: (
    Vec<String>,
    bool,
))
    requires
        old(report).settled() + keys@.len() <= u64::MAX,
    ensures
        ({
            let words = within(*days, text::views(keys@));
            &&& text::views(r.0@) == kept(selection@, words)
            &&& r.1 == (words.len() < keys@.len())
            &&& final(report).objects == old(report).objects + count_of(
                selection@,
                words,
                Selected::Yes,
            )
            &&& final(report).passed == old(report).passed + count_of(
                selection@,
                words,
                Selected::No,
            )
            &&& final(report).unnameable == old(report).unnameable + count_of(
                selection@,
                words,
                Selected::Unnameable,
            )
            &&& final(report).settled() == old(report).settled() + words.len()
            &&& *final(report) == (Report {
                objects: final(report).objects,
                passed: final(report).passed,
                unnameable: final(report).unnameable,
                ..*old(report)
            })
        }),
{
    let mut found: Vec<String> = Vec::new();
    let ghost all = text::views(keys@);
    let ghost start = *report;
    assert(all.take(0) + within(*days, all.skip(0)) =~= within(*days, all)) by {
        assert(all.skip(0) =~= all);
    }
    assert(kept(selection@, all.take(0)) =~= Seq::<Seq<char>>::empty()) by {
        reveal(Seq::filter);
    }
    let mut i: usize = 0;
    while i < keys.len()
        invariant
            i <= keys@.len(),
            all == text::views(keys@),
            start == *old(report),
            start.settled() + keys@.len() <= u64::MAX,
            within(*days, all) == all.take(i as int) + within(*days, all.skip(i as int)),
            text::views(found@) == kept(selection@, all.take(i as int)),
            report.objects == start.objects + count_of(
                selection@,
                all.take(i as int),
                Selected::Yes,
            ),
            report.passed == start.passed + count_of(selection@, all.take(i as int), Selected::No),
            report.unnameable == start.unnameable + count_of(
                selection@,
                all.take(i as int),
                Selected::Unnameable,
            ),
            report.settled() == start.settled() + i,
            *report == (Report {
                objects: report.objects,
                passed: report.passed,
                unnameable: report.unnameable,
                ..start
            }),
        decreases keys@.len() - i,
    {
        let key = keys[i].as_str();
        let ghost rest = all.skip(i as int);
        assert(rest[0] == key@);
        if days.past(key) {
            assert(within(*days, all) =~= all.take(i as int));
            return (found, true);
        }
        proof {
            assert(rest.skip(1) =~= all.skip(i + 1));
            assert(all.take(i + 1) =~= all.take(i as int).push(key@));
            assert(all.take(i as int) + within(*days, rest) =~= all.take(i + 1) + within(
                *days,
                all.skip(i + 1),
            ));
            assert(all.take(i + 1).drop_last() =~= all.take(i as int));
            assert(kept(selection@, all.take(i + 1)) == if selection@.selects(key@)
                == Selected::Yes {
                kept(selection@, all.take(i as int)).push(key@)
            } else {
                kept(selection@, all.take(i as int))
            }) by {
                reveal(Seq::filter);
            }
        }
        match selection.selects(key) {
            Selected::Yes => {
                report.objects = report.objects + 1;
                let ghost before = found@;
                found.push(keys[i].clone());
                assert(text::views(found@) =~= text::views(before).push(key@));
            },
            Selected::No => {
                report.passed = report.passed + 1;
            },
            Selected::Unnameable => {
                report.unnameable = report.unnameable + 1;
            },
        }
        i += 1;
    }
    assert(all.take(i as int) =~= all);
    assert(within(*days, all.skip(i as int)) =~= Seq::<Seq<char>>::empty());
    assert(within(*days, all) =~= all);
    (found, false)
}

/// What carries no attestation lands exactly where nothing is insisted on, and as unattested.
pub proof fn unattested_lands_where_nothing_is_asked(
    key: Seq<char>,
    bytes: Seq<u8>,
    leios_stands: bool,
    insist: Insist,
)
    ensures
        judged(key, bytes, None, leios_stands, insist) is Ok <==> insist == Insist::Nothing,
        judged(key, bytes, None, leios_stands, insist) matches Ok(standing) ==> standing
            == Standing::Unattested,
{
}

/// What a pool's own cold key signed lands under every bar, as cold-signed; what another pool's
/// key signed lands under none, however rightly it is signed.
pub proof fn a_cold_signature_lands_under_its_own_pool(
    name: key::Name,
    bytes: Seq<u8>,
    cold: Seq<u8>,
    signature: Seq<u8>,
    leios_stands: bool,
    insist: Insist,
)
    requires
        name.valid(),
        key::pool_reads_back(name.pool),
        outside::ed25519_strict(cold, bytes, signature),
    ensures
        ({
            let claim = attestation::Claim::Cold { key: cold, signature };
            let given = judged(name.key(), bytes, Some(claim), leios_stands, insist);
            &&& outside::blake2b224(cold) == name.pool ==> given == Ok::<
                Standing,
                (Fault, Seq<char>),
            >(Standing::ColdSigned)
            &&& outside::blake2b224(cold) != name.pool ==> given is Err && given->Err_0.0
                == Fault::Verdict
        }),
{
    key::parse_inverts_key(name);
}

/// What a Leios key signed lands under every bar but the highest, as Leios-signed, and whatever
/// pool it is filed under: the key names none.
pub proof fn a_leios_signature_lands_below_the_highest_bar(
    name: key::Name,
    bytes: Seq<u8>,
    leios: Seq<u8>,
    signature: Seq<u8>,
    insist: Insist,
)
    requires
        name.valid(),
        key::pool_reads_back(name.pool),
    ensures
        ({
            let claim = attestation::Claim::Leios { key: leios, signature };
            let given = judged(name.key(), bytes, Some(claim), true, insist);
            &&& insist != Insist::ColdSigned ==> given == Ok::<Standing, (Fault, Seq<char>)>(
                Standing::LeiosSigned,
            )
            &&& insist == Insist::ColdSigned ==> given is Err && given->Err_0.0 == Fault::Bar
        }),
{
    key::parse_inverts_key(name);
}

/// An object is under the bar exactly where a run that insists on nothing would have taken it: that
/// is no verdict on the object. What fails to verify fails so under every bar.
pub proof fn under_the_bar_is_no_verdict(
    key: Seq<char>,
    bytes: Seq<u8>,
    claim: Option<attestation::Claim>,
    leios_stands: bool,
    insist: Insist,
    other: Insist,
)
    ensures
        ({
            let given = judged(key, bytes, claim, leios_stands, insist);
            let bare = judged(key, bytes, claim, leios_stands, Insist::Nothing);
            let again = judged(key, bytes, claim, leios_stands, other);
            &&& given is Err ==> (given->Err_0.0 == Fault::Bar <==> bare is Ok)
            &&& given is Err && given->Err_0.0 == Fault::Verdict <==> again is Err
                && again->Err_0.0 == Fault::Verdict
        }),
{
}

/// Every object that a key names has a place in the directory, below it and under its own key; and
/// no two keys share one.
pub proof fn every_key_has_its_own_place(into: Seq<char>, a: key::Name, b: key::Name)
    requires
        a.valid(),
        b.valid(),
        key::pool_reads_back(a.pool),
        key::pool_reads_back(b.pool),
    ensures
        destination_of(into, a.key()) matches Some(place) && text::begins(place, into)
            && text::ends(place, a.key()),
        destination_of(into, a.key()) == destination_of(into, b.key()) ==> a == b,
        into.len() > 0 && into.last() != '/' ==> destination_of(into, a.key()) == Some(
            into + seq!['/'] + a.key(),
        ),
{
    key::a_key_stays_below(a);
    key::a_key_stays_below(b);
    path::below_is_under_its_base(into, a.key());
    let x = path::joined_to(into, a.key());
    let y = path::joined_to(into, b.key());
    if x == y {
        let n = if into.len() == 0 || into.last() == '/' {
            into.len() as int
        } else {
            (into.len() + 1) as int
        };
        assert(x.skip(n) =~= a.key());
        assert(y.skip(n) =~= b.key());
        key::keys_are_distinct(a, b);
    }
}

/// A key that climbs, or that starts at the root, has no place in any directory.
pub proof fn no_key_leaves_the_directory(into: Seq<char>, key: Seq<char>, i: int)
    requires
        path::absolute(key) || 0 <= i < text::pieces(key, '/').len() && text::pieces(key, '/')[i]
            == ".."@,
    ensures
        destination_of(into, key) is None,
{
    if path::absolute(key) {
        text::lemma_position_is(key, '/', 0);
        assert(text::pieces(key, '/')[0] == key.take(0));
    }
}

/// A page is taken as it came: every key of it in its order, going on behind its last key, and done
/// where the server said that nothing follows. Only a page that does not move on is refused.
pub proof fn a_page_is_taken_as_it_came(after: Seq<char>, keys: Seq<Seq<char>>, truncated: bool)
    ensures
        paged(after, keys, truncated) matches Paged::Keys { keys: taken, last, done } ==> taken
            == keys && keys.len() > 0 && last == keys.last() && done == !truncated,
        paged(after, keys, truncated) is End <==> keys.len() == 0 && !truncated,
        paged(after, keys, truncated) is Stuck <==> if keys.len() == 0 {
            truncated
        } else {
            !text::before(after, keys.last())
        },
{
}

/// A walk goes on up to the first key past the last day, and takes in every key before that one.
pub proof fn a_walk_stops_at_the_first_past(days: Days, keys: Seq<Seq<char>>) -> (n: int)
    ensures
        0 <= n <= keys.len(),
        within(days, keys) == keys.take(n),
        forall|i: int| 0 <= i < n ==> !days.past_spec(#[trigger] keys[i]),
        n < keys.len() ==> days.past_spec(keys[n]),
    decreases keys.len(),
{
    if keys.len() == 0 {
        assert(keys.take(0) =~= keys);
        0
    } else if days.past_spec(keys[0]) {
        assert(keys.take(0) =~= Seq::empty());
        0
    } else {
        let rest = a_walk_stops_at_the_first_past(days, keys.skip(1));
        assert(keys.take(rest + 1) =~= seq![keys[0]] + keys.skip(1).take(rest));
        assert forall|i: int| 0 <= i < rest + 1 implies !days.past_spec(#[trigger] keys[i]) by {
            if i > 0 {
                assert(keys.skip(1)[i - 1] == keys[i]);
            }
        }
        rest + 1
    }
}

/// Every key has one answer, so the three counts of some keys are all of them; and the keys that
/// are kept are as many as were answered with yes.
pub proof fn every_key_is_counted_once(selection: select::Choice, keys: Seq<Seq<char>>)
    ensures
        count_of(selection, keys, Selected::Yes) + count_of(selection, keys, Selected::No)
            + count_of(selection, keys, Selected::Unnameable) == keys.len(),
        kept(selection, keys).len() == count_of(selection, keys, Selected::Yes),
        forall|key: Seq<char>| #[trigger]
            kept(selection, keys).contains(key) ==> selection.selects(key) == Selected::Yes,
    decreases keys.len(),
{
    reveal(Seq::filter);
    let keep = |key: Seq<char>| selection.selects(key) == Selected::Yes;
    if keys.len() > 0 {
        every_key_is_counted_once(selection, keys.drop_last());
    }
    assert forall|key: Seq<char>| #[trigger] kept(selection, keys).contains(
        key,
    ) implies selection.selects(key) == Selected::Yes by {
        let i = choose|i: int|
            0 <= i < kept(selection, keys).len() && kept(selection, keys)[i] == key;
        keys.lemma_filter_pred(keep, i);
    }
}

/// An object under a key that names none lands nowhere once it carries a signature: there is no
/// pool to hold the signature against.
pub proof fn a_signed_object_needs_a_name(
    key: Seq<char>,
    bytes: Seq<u8>,
    claim: attestation::Claim,
    leios_stands: bool,
    insist: Insist,
)
    requires
        key::parsed(key) is Err,
    ensures
        judged(key, bytes, Some(claim), leios_stands, insist) matches Err((fault, _)) && fault
            == Fault::Verdict,
{
}

/// What a server files lands with whoever downloads it: under every bar where the pool's cold key
/// signed it, and under every bar but the highest where a Leios key did.
pub proof fn what_is_filed_lands(
    limits: intake::Limits,
    budgets: ratelimit::Budgets,
    upload: intake::Upload,
    claimed: Option<Seq<u8>>,
    header: Result<intake::Said, Seq<char>>,
    now: int,
    now_text: Seq<char>,
    id: u128,
    insist: Insist,
)
    requires
        authority::attributed(upload.claim, claimed) == Ok::<
            Seq<u8>,
            authority::AttributionFault,
        >(upload.pool),
        limits.judges(budgets, upload, header, now, now_text) is Ok,
        key::stampable(id),
        upload.pool.len() == pool::POOL_HASH_BYTES,
        key::pool_reads_back(upload.pool),
        agent::is_slug((limits.judges(budgets, upload, header, now, now_text)->Ok_0).0),
    ensures
        ({
            let (agent, kind) = limits.judges(budgets, upload, header, now, now_text)->Ok_0;
            let name = key::Name { id, pool: upload.pool, agent, kind };
            let given = judged(
                name.key(),
                upload.wire,
                Some(upload.claim),
                upload.leios_stands,
                insist,
            );
            &&& upload.claim is Cold ==> given == Ok::<Standing, (Fault, Seq<char>)>(
                Standing::ColdSigned,
            )
            &&& upload.claim is Leios ==> (given == Ok::<Standing, (Fault, Seq<char>)>(
                Standing::LeiosSigned,
            ) <==> insist != Insist::ColdSigned)
        }),
{
    let (agent, kind) = limits.judges(budgets, upload, header, now, now_text)->Ok_0;
    key::parse_inverts_key(key::Name { id, pool: upload.pool, agent, kind });
}

}
