//! What the server answers, as values: the POST route submissions arrive on, the two GET routes a
//! developer pulls the archive back out through, and the pages an operator reads.
//!
//! No transport type appears here. `answer` takes a decoded `Request` and says what to do with it:
//! an answer that is already there, or which use of the archive has to be made first. What that use
//! came to is handed back, and is answered in turn.
//!
//! TLS belongs to the reverse proxy in front of this, as does any IP-keyed limit: this layer knows
//! only pool ids and developer accounts. What the server refuses on its own it refuses with nothing
//! in front of it.

use vstd::prelude::*;
use vstd::utf8;

use crate::bytes;
use crate::count::NonZeroU32;
use crate::hex;
use crate::outside;
use crate::percent;
use crate::server::archive::{ArchiveError, Page};
use crate::server::authority;
use crate::server::authority::{Attributed, AttributionError};
use crate::server::developer;
use crate::server::developer::{Developer, Filters, Unauthorized};
use crate::server::instructions;
use crate::server::instructions::{
    File, ANALYSIS_PATH, DETAILS_PATH, FILES_PREFIX, ICON_CONTENT_TYPE, ICON_LEGACY_PATH, ICON_PATH,
    PATH,
};
use crate::server::intake::{IngestError, Refusal, Rejection};
use crate::text;
use crate::wire::attestation;
use crate::wire::attestation::{
    Attestation, HeaderError, COLD_KEY_BYTES, COLD_SIGNATURE_BYTES, HEADER_SIGNATURE, HEADER_VKEY,
};
use crate::wire::envelope::Ack;
use crate::wire::http::{KEY_FIELD, OBJECT_PATH, SUBMISSIONS_PATH};
use crate::wire::journal::{ERR, WARNING};
use crate::wire::pool;
use crate::wire::pool::PoolId;
use crate::wire::signing::{Signature, VerifyingKey};

verus! {

/// Where submissions arrive.
pub const SUBMIT_PATH: &'static str = "/v1/submit";

/// Everything a 401 says to the client. One string for every reason, so the body cannot tell a
/// wrong password from a missing header.
pub const UNAUTHORIZED_BODY: &'static str = "credentials required";

pub const HTML: &'static str = "text/html; charset=utf-8";

pub const PLAIN: &'static str = "text/plain; charset=utf-8";

pub const JSON: &'static str = "application/json";

/// The body of a download is the zstd the pool signed, so a developer decompresses it themselves.
pub const ZSTD: &'static str = "application/zstd";

/// The two methods the routes take. Anything else is one value: a refusal names the method the
/// route accepts, never the one that was tried.
#[derive(Debug, Clone, Copy, PartialEq, Eq, Structural)]
pub enum Method {
    Get,
    Post,
    Other,
}

/// A request with its transport decoded.
#[derive(Debug)]
pub struct Request {
    pub method: Method,
    /// The target as sent, path and query together: the filters and the object key are read off
    /// it.
    pub target: String,
    /// The submission headers, decoded by whoever built this: once, because whether they decode is
    /// also what decides if a body is worth reading. `Err` names the first that did not decode.
    pub submission: Result<Attributed, AttributionError>,
    pub authorization: Option<String>,
    pub body: Vec<u8>,
}

/// The route a target names, which is the target up to its query.
pub open spec fn path_of(target: Seq<char>) -> Seq<char> {
    match text::halves(target, '?') {
        Some((path, _)) => path,
        None => target,
    }
}

impl Request {
    /// The route the target names, which is the target up to its query.
    pub fn path(&self) -> (r: String)
        ensures
            r@ == path_of(self.target@),
    {
        match text::split_once(self.target.as_str(), '?') {
            Some((path, _)) => path,
            None => self.target.clone(),
        }
    }
}

/// The identity a request presents with a cold key. Holding one means the two headers were present
/// and well formed; whether the signature verifies is the intake's answer, not this type's.
#[derive(Debug)]
pub struct SubmissionHeaders {
    pub vkey: VerifyingKey,
    pub signature: Signature,
}

/// What the two headers of a cold-key submission decode to.
pub open spec fn cold_headers(vkey: Option<Seq<char>>, signature: Option<Seq<char>>) -> Result<
    (Seq<u8>, Seq<u8>),
    attestation::HeaderFault,
> {
    match attestation::header_exact(vkey, HEADER_VKEY@, COLD_KEY_BYTES as int) {
        Err(fault) => Err(fault),
        Ok(key) => match attestation::header_exact(
            signature,
            HEADER_SIGNATURE@,
            COLD_SIGNATURE_BYTES as int,
        ) {
            Err(fault) => Err(fault),
            Ok(signature) => match outside::ed25519_refusal(key) {
                Some(reason) => Err(attestation::HeaderFault::Vkey { reason }),
                None => Ok((key, signature)),
            },
        },
    }
}

impl SubmissionHeaders {
    /// The identity two headers present, or the first thing that keeps them from presenting one.
    pub fn decode(vkey: Option<&str>, signature: Option<&str>) -> (r: Result<
        SubmissionHeaders,
        HeaderError,
    >)
        ensures
            match r {
                Ok(headers) => cold_headers(text::view_of_str(vkey), text::view_of_str(signature))
                    == Ok::<(Seq<u8>, Seq<u8>), attestation::HeaderFault>(
                    (headers.vkey@, headers.signature@),
                ),
                Err(error) => cold_headers(text::view_of_str(vkey), text::view_of_str(signature))
                    == Err::<(Seq<u8>, Seq<u8>), attestation::HeaderFault>(error@),
            },
    {
        let key = match attestation::decode_hex_exact(vkey, HEADER_VKEY, COLD_KEY_BYTES) {
            Ok(key) => key,
            Err(error) => {
                return Err(error);
            },
        };
        let made = match attestation::decode_hex_exact(
            signature,
            HEADER_SIGNATURE,
            COLD_SIGNATURE_BYTES,
        ) {
            Ok(made) => made,
            Err(error) => {
                return Err(error);
            },
        };
        match VerifyingKey::from_bytes(&bytes::fixed32(key.as_slice())) {
            Ok(vkey) => Ok(
                SubmissionHeaders {
                    vkey,
                    signature: Signature::from_bytes(&bytes::fixed64(made.as_slice())),
                },
            ),
            Err(reason) => Err(HeaderError::Vkey { reason }),
        }
    }

    /// Whose upload this is. Derived, so it holds before the signature is checked and says nothing
    /// about whether it will pass.
    pub fn pool_id(&self) -> (r: PoolId)
        ensures
            r@ == outside::blake2b224(self.vkey@),
    {
        PoolId::from_cold_key(&self.vkey)
    }
}

/// The status a refusal of a submission answers with.
pub open spec fn status_of(refusal: Refusal) -> u16 {
    match refusal {
        Refusal::OversizedBody { .. } => 413,
        Refusal::RateLimited { .. } | Refusal::ServerBusy { .. } => 429,
        Refusal::UnknownPool { .. } | Refusal::BadSignature | Refusal::Unauthorised(_) => 403,
        Refusal::NotASubmission(_)
        | Refusal::UnreadableHeader { .. }
        | Refusal::StaleTimestamp { .. }
        | Refusal::KeylessSchema { .. } => 400,
    }
}

/// The status a rejected submission answers with. Takes a `Rejection` and not an `IngestError`, so
/// what this can answer is only ever the client's fault: a rejection's text is the client's to
/// read, where an availability failure's is withheld.
pub fn status_for(rejection: &Rejection) -> (r: u16)
    ensures
        r == status_of(rejection@),
{
    match rejection {
        Rejection::OversizedBody { .. } => 413,
        Rejection::RateLimited { .. } | Rejection::ServerBusy { .. } => 429,
        Rejection::UnknownPool { .. } | Rejection::BadSignature | Rejection::Unauthorised(_) => 403,
        Rejection::NotASubmission(_)
        | Rejection::UnreadableHeader { .. }
        | Rejection::StaleTimestamp { .. }
        | Rejection::KeylessSchema { .. } => 400,
    }
}

/// Whatever a submission is refused for, the answer says that the client has to change something
/// before it asks again.
pub proof fn a_rejection_is_the_clients(refusal: Refusal)
    ensures
        400 <= status_of(refusal) <= 499,
{
}

/// What an answer's body is made of. Every refusal and every generated page is bytes this server
/// already holds; only the download is an archive read.
#[derive(Debug)]
pub enum AnswerBody {
    Bytes(Vec<u8>),
    /// The object under `key`, whose `length` the archive declared.
    Stream { key: String, length: u64 },
}

/// What the server writes back.
#[derive(Debug)]
pub struct Answer {
    pub status: u16,
    pub content_type: &'static str,
    pub body: AnswerBody,
    pub headers: Vec<(&'static str, String)>,
}

/// What an `AnswerBody` is, over plain values.
pub enum Written {
    Bytes(Seq<u8>),
    Stream { key: Seq<char>, length: u64 },
}

/// What an `Answer` is, over plain values.
pub struct Reply {
    pub status: u16,
    pub content_type: Seq<char>,
    pub body: Written,
    pub headers: Seq<(Seq<char>, Seq<char>)>,
}

impl View for AnswerBody {
    type V = Written;

    open spec fn view(&self) -> Written {
        match *self {
            AnswerBody::Bytes(held) => Written::Bytes(held@),
            AnswerBody::Stream { key, length } => Written::Stream { key: key@, length },
        }
    }
}

/// The views of headers.
pub open spec fn header_views(headers: Seq<(&'static str, String)>) -> Seq<(Seq<char>, Seq<char>)> {
    headers.map_values(|header: (&'static str, String)| (header.0@, header.1@))
}

impl View for Answer {
    type V = Reply;

    open spec fn view(&self) -> Reply {
        Reply {
            status: self.status,
            content_type: self.content_type@,
            body: self.body@,
            headers: header_views(self.headers@),
        }
    }
}

/// An answer, and the line it puts in the journal, if it puts one there.
#[derive(Debug)]
pub struct Answered {
    pub answer: Answer,
    pub line: Option<String>,
}

/// What an `Answered` is, over plain values.
pub struct Given {
    pub reply: Reply,
    pub line: Option<Seq<char>>,
}

impl View for Answered {
    type V = Given;

    open spec fn view(&self) -> Given {
        Given { reply: self.answer@, line: text::view_of(self.line) }
    }
}

/// How a request is named before anything it claims has been verified.
pub open spec fn signer_text(signer: Option<Seq<u8>>) -> Seq<char> {
    match signer {
        Some(pool) => pool::bech32_of_pool(pool),
        None => "an unidentified client"@,
    }
}

/// Whose a request is, over plain values.
pub open spec fn signer_view(signer: Option<PoolId>) -> Option<Seq<u8>> {
    match signer {
        Some(pool_id) => Some(pool_id@),
        None => None,
    }
}

/// How a request is named before anything it claims has been verified.
pub fn named(signer: Option<PoolId>) -> (r: String)
    ensures
        r@ == signer_text(signer_view(signer)),
{
    match signer {
        Some(pool_id) => pool_id.to_bech32(),
        None => String::from_str("an unidentified client"),
    }
}

/// An answer of bytes with no header beside them.
pub open spec fn plain_reply(status: u16, content_type: Seq<char>, body: Seq<u8>) -> Reply {
    Reply { status, content_type, body: Written::Bytes(body), headers: seq![] }
}

/// The line a refusal puts in the journal: an error where the fault is this server's, and a warning
/// where it is the client's.
pub open spec fn refusal_line(signer: Option<Seq<u8>>, status: u16, logged: Seq<char>) -> Seq<char> {
    (if status >= 500 {
        ERR@
    } else {
        WARNING@
    }) + "refused "@ + signer_text(signer) + ": "@ + text::decimal(status as int) + ", "@ + logged
}

/// A refusal: what the client reads is `reason` alone, and `withheld` stands behind it in the
/// journal.
pub open spec fn refused(
    signer: Option<Seq<u8>>,
    status: u16,
    reason: Seq<char>,
    withheld: Option<Seq<char>>,
) -> Given {
    Given {
        reply: plain_reply(status, PLAIN@, utf8::encode_utf8(reason)),
        line: Some(
            refusal_line(
                signer,
                status,
                match withheld {
                    Some(withheld) => reason + ": "@ + withheld,
                    None => reason,
                },
            ),
        ),
    }
}

/// The answer that bytes are.
fn with_bytes(status: u16, content_type: &'static str, body: Vec<u8>) -> (r: Answer)
    ensures
        r@ == plain_reply(status, content_type@, body@),
{
    let headers: Vec<(&'static str, String)> = Vec::new();
    assert(header_views(headers@) =~= seq![]);
    Answer { status, content_type, body: AnswerBody::Bytes(body), headers }
}

/// A refusal whose log line carries more than its body: `withheld` is appended to what is logged
/// and never sent.
fn refuse_withholding(
    signer: Option<PoolId>,
    status: u16,
    reason: &str,
    withheld: Option<&str>,
) -> (r: Answered)
    ensures
        r@ == refused(signer_view(signer), status, reason@, text::view_of_str(withheld)),
{
    let mut line = String::from_str(
        if status >= 500 {
            ERR
        } else {
            WARNING
        },
    );
    line.append("refused ");
    line.append(named(signer).as_str());
    line.append(": ");
    line.append(text::decimal_of(status as u128).as_str());
    line.append(", ");
    let mut logged = String::from_str(reason);
    if let Some(withheld) = withheld {
        logged.append(": ");
        logged.append(withheld);
    }
    line.append(logged.as_str());
    Answered {
        answer: with_bytes(status, PLAIN, bytes::copied(reason.as_bytes())),
        line: Some(line),
    }
}

/// Every refusal is logged: the reason text is the only record of why a pool's uploads are not
/// landing.
pub fn refuse(signer: Option<PoolId>, status: u16, reason: &str) -> (r: Answered)
    ensures
        r@ == refused(signer_view(signer), status, reason@, None),
{
    refuse_withholding(signer, status, reason, None)
}

/// The 413 an oversized body earns, worded by the intake so the client reads one sentence for the
/// cap whichever layer caught it.
pub fn oversized(signer: Option<PoolId>, found: usize, max: u64) -> (r: Answered)
    ensures
        r@ == refused(
            signer_view(signer),
            413,
            (Refusal::OversizedBody { found: found as int, max: max as int }).spelled(),
            None,
        ),
{
    let rejection = Rejection::OversizedBody { found, max };
    refuse(signer, 413, rejection.message().as_str())
}

/// The 5xx every use of the archive answers with: a body saying which use failed, and a log line
/// saying how. The detail names the bucket, the endpoint or the archive root, and none of that is a
/// client's to read.
fn unavailable(signer: Option<PoolId>, reason: &str, withheld: &str) -> (r: Answered)
    ensures
        r@ == refused(signer_view(signer), 503, reason@, Some(withheld@)),
{
    refuse_withholding(signer, 503, reason, Some(withheld))
}

/// What a 401 challenges a client with.
pub open spec fn challenge_text() -> Seq<char> {
    "Basic realm=\""@ + developer::REALM@ + "\", charset=\"UTF-8\""@
}

/// What a client that is not let in is sent.
pub open spec fn unauthorized() -> Reply {
    Reply {
        status: 401,
        content_type: PLAIN@,
        body: Written::Bytes(utf8::encode_utf8(UNAUTHORIZED_BODY@)),
        headers: seq![("www-authenticate"@, challenge_text())],
    }
}

/// The 401 both developer routes answer: the challenge, and a body that is the same for every
/// reason. The reason is in the journal alone.
pub open spec fn challenged(path: Seq<char>, denial: developer::Denial) -> Given {
    let bare = refused(None, 401, UNAUTHORIZED_BODY@, Some(path + ": "@ + denial.spelled()));
    Given {
        reply: Reply { headers: seq![("www-authenticate"@, challenge_text())], ..bare.reply },
        line: bare.line,
    }
}

/// The 401 both developer routes answer: see `challenged`. Nothing that is sent depends on the path
/// or on the reason.
pub fn challenge(path: &str, error: &Unauthorized) -> (r: Answered)
    ensures
        r@ == challenged(path@, error@),
        r@.reply == unauthorized(),
{
    let mut withheld = String::from_str(path);
    withheld.append(": ");
    withheld.append(error.message().as_str());
    let bare = refuse_withholding(None, 401, UNAUTHORIZED_BODY, Some(withheld.as_str()));
    let mut value = String::from_str("Basic realm=\"");
    value.append(developer::REALM);
    value.append("\", charset=\"UTF-8\"");
    let mut headers: Vec<(&'static str, String)> = Vec::new();
    headers.push(("www-authenticate", value));
    assert(header_views(headers@) =~= seq![("www-authenticate"@, challenge_text())]);
    Answered {
        answer: Answer {
            status: bare.answer.status,
            content_type: bare.answer.content_type,
            body: bare.answer.body,
            headers,
        },
        line: bare.line,
    }
}

/// Two requests that are not let in are answered alike, whatever each presented and wherever: a
/// client learns nothing from a 401 but that credentials are required.
pub proof fn challenges_are_alike(
    path: Seq<char>,
    other_path: Seq<char>,
    denial: developer::Denial,
    other: developer::Denial,
)
    ensures
        challenged(path, denial).reply == unauthorized(),
        challenged(path, denial).reply == challenged(other_path, other).reply,
{
}

/// What the archive says of its own failure never reaches a client: two failures of one use are
/// answered alike.
pub proof fn failures_are_answered_alike(
    signer: Option<Seq<u8>>,
    reason: Seq<char>,
    withheld: Seq<char>,
    other: Seq<char>,
)
    ensures
        refused(signer, 503, reason, Some(withheld)).reply == refused(
            signer,
            503,
            reason,
            Some(other),
        ).reply,
{
}

/// Everything a person reads, ready to serve.
#[derive(Debug)]
pub struct Pages {
    pub quickstart: Vec<u8>,
    pub details: Vec<u8>,
    pub analysis: Vec<u8>,
    pub icon: Vec<u8>,
    /// Everything served under `FILES_PREFIX`.
    pub files: Vec<File>,
}

/// What a file is, over plain values.
pub struct Offered {
    pub name: Seq<char>,
    pub bytes: Seq<u8>,
    pub content_type: Seq<char>,
}

/// What files are, over plain values.
pub open spec fn offers(files: Seq<File>) -> Seq<Offered> {
    files.map_values(
        |file: File|
            Offered { name: file.name@, bytes: file.bytes@, content_type: file.content_type@ },
    )
}

/// What `Pages` are, over plain values.
pub struct Shelf {
    pub quickstart: Seq<u8>,
    pub details: Seq<u8>,
    pub analysis: Seq<u8>,
    pub icon: Seq<u8>,
    pub files: Seq<Offered>,
}

impl View for Pages {
    type V = Shelf;

    open spec fn view(&self) -> Shelf {
        Shelf {
            quickstart: self.quickstart@,
            details: self.details@,
            analysis: self.analysis@,
            icon: self.icon@,
            files: offers(self.files@),
        }
    }
}

/// The first of some files with a name.
pub open spec fn file_named(files: Seq<Offered>, name: Seq<char>) -> Option<Offered>
    decreases files.len(),
{
    if files.len() == 0 {
        None
    } else if files[0].name == name {
        Some(files[0])
    } else {
        file_named(files.skip(1), name)
    }
}

impl Shelf {
    /// What is served at a path to anyone: its content type and its bytes.
    pub open spec fn at(self, path: Seq<char>) -> Option<(Seq<char>, Seq<u8>)> {
        if path == PATH@ {
            Some((HTML@, self.quickstart))
        } else if path == DETAILS_PATH@ {
            Some((HTML@, self.details))
        } else if path == ANALYSIS_PATH@ {
            Some((HTML@, self.analysis))
        } else if path == ICON_PATH@ || path == ICON_LEGACY_PATH@ {
            Some((ICON_CONTENT_TYPE@, self.icon))
        } else {
            match text::after_prefix(path, FILES_PREFIX@) {
                Some(name) => match file_named(self.files, name) {
                    Some(file) => Some((file.content_type, file.bytes)),
                    None => None,
                },
                None => None,
            }
        }
    }
}

impl Pages {
    /// The rendered pages as they are served, and the icon beside them.
    pub fn from(pages: instructions::Pages, icon: &str) -> (r: Pages)
        ensures
            r@ == (Shelf {
                quickstart: utf8::encode_utf8(pages.quickstart@),
                details: utf8::encode_utf8(pages.details@),
                analysis: utf8::encode_utf8(pages.analysis@),
                icon: utf8::encode_utf8(icon@),
                files: offers(pages.files@),
            }),
    {
        Pages {
            quickstart: bytes::copied(pages.quickstart.as_str().as_bytes()),
            details: bytes::copied(pages.details.as_str().as_bytes()),
            analysis: bytes::copied(pages.analysis.as_str().as_bytes()),
            icon: bytes::copied(icon.as_bytes()),
            files: pages.files,
        }
    }

    /// What is served at a path to anyone: its content type and its bytes.
    pub fn at(&self, path: &str) -> (r: Option<(&'static str, &[u8])>)
        ensures
            match r {
                Some((content_type, held)) => self@.at(path@) == Some((content_type@, held@)),
                None => self@.at(path@) is None,
            },
    {
        if text::same(path, PATH) {
            return Some((HTML, self.quickstart.as_slice()));
        }
        if text::same(path, DETAILS_PATH) {
            return Some((HTML, self.details.as_slice()));
        }
        if text::same(path, ANALYSIS_PATH) {
            return Some((HTML, self.analysis.as_slice()));
        }
        if text::same(path, ICON_PATH) || text::same(path, ICON_LEGACY_PATH) {
            return Some((ICON_CONTENT_TYPE, self.icon.as_slice()));
        }
        let name = match text::strip_prefix(path, FILES_PREFIX) {
            Some(name) => name,
            None => {
                return None;
            },
        };
        let ghost all = offers(self.files@);
        assert(all.skip(0) =~= all);
        for i in 0..self.files.len()
            invariant
                all == offers(self.files@),
                self@.files == all,
                text::after_prefix(path@, FILES_PREFIX@) == Some(name@),
                path@ != PATH@,
                path@ != DETAILS_PATH@,
                path@ != ANALYSIS_PATH@,
                path@ != ICON_PATH@,
                path@ != ICON_LEGACY_PATH@,
                file_named(all, name@) == file_named(all.skip(i as int), name@),
        {
            let ghost rest = all.skip(i as int);
            assert(rest[0] == all[i as int]);
            assert(rest.skip(1) =~= all.skip(i + 1));
            if text::same(self.files[i].name.as_str(), name.as_str()) {
                return Some((self.files[i].content_type, self.files[i].bytes.as_slice()));
            }
        }
        None
    }
}

/// What a request comes to.
#[derive(Debug)]
pub enum Step {
    /// It is answered.
    Done(Answered),
    /// Its body is a submission to take in.
    Submit,
    /// The archive has to be listed first.
    List { filters: Filters, max_keys: NonZeroU32 },
    /// An object has to be opened first.
    Object { key: String },
}

/// What a `Step` is, over plain values.
pub enum Turn {
    Done(Given),
    Submit,
    List { prefix: Seq<char>, after: Seq<char>, max_keys: int },
    Object { key: Seq<char> },
}

impl View for Step {
    type V = Turn;

    open spec fn view(&self) -> Turn {
        match *self {
            Step::Done(answered) => Turn::Done(answered@),
            Step::Submit => Turn::Submit,
            Step::List { filters, max_keys } => Turn::List {
                prefix: filters.prefix@,
                after: filters.after@,
                max_keys: max_keys@,
            },
            Step::Object { key } => Turn::Object { key: key@ },
        }
    }
}

/// What a request says, over plain values. `submission` is what its submission headers claim and
/// for which pool, or what is wrong with them.
pub struct Asked {
    pub method: Method,
    pub target: Seq<char>,
    pub submission: Result<(attestation::Claim, Seq<u8>), authority::AttributionFault>,
    pub authorization: Option<Seq<char>>,
    pub body: Seq<u8>,
}

impl Request {
    /// What this request says.
    pub open spec fn asked(self) -> Asked {
        Asked {
            method: self.method,
            target: self.target@,
            submission: match self.submission {
                Ok(attributed) => Ok((attributed.attestation@, attributed.pool_id@)),
                Err(error) => Err(error@),
            },
            authorization: text::view_of(self.authorization),
            body: self.body@,
        }
    }
}

/// A route reached with the wrong method is named, because a client that guessed the method is not
/// a client at the wrong address.
pub open spec fn wrong_method(path: Seq<char>, takes: Seq<char>) -> Turn {
    Turn::Done(refused(None, 405, path + " takes "@ + takes, None))
}

/// How many keys a listing is bounded to.
pub open spec fn bound_of(rows: int) -> int {
    if rows <= developer::LIST_MAX_ROWS_CAP {
        rows
    } else {
        developer::LIST_MAX_ROWS_CAP as int
    }
}

/// What one of the two developer routes does for a client that was let in.
pub open spec fn pulled(asked: Asked, rows: int) -> Turn {
    let path = path_of(asked.target);
    if asked.method != Method::Get {
        wrong_method(path, "GET"@)
    } else if path == SUBMISSIONS_PATH@ {
        match developer::filters_of(asked.target) {
            Err(field) => Turn::Done(
                refused(
                    None,
                    400,
                    field + " is not UTF-8 once its percent escapes are decoded"@,
                    None,
                ),
            ),
            Ok((prefix, after)) => Turn::List { prefix, after, max_keys: bound_of(rows) },
        }
    } else {
        match developer::field_of(asked.target, KEY_FIELD@) {
            None => Turn::Done(
                refused(
                    None,
                    400,
                    KEY_FIELD@ + " is not UTF-8 once its percent escapes are decoded"@,
                    None,
                ),
            ),
            Some(key) => if key.len() == 0 {
                Turn::Done(refused(None, 400, "name the object in ?"@ + KEY_FIELD@ + "="@, None))
            } else {
                Turn::Object { key }
            },
        }
    }
}

/// What a request comes to. The pages are unauthenticated: they are what an operator reads before
/// they have anything to authenticate with. On the developer routes authentication comes before
/// the method: answering 405 first would confirm the route exists to a client that never presented
/// a credential.
pub open spec fn turn_of(
    asked: Asked,
    named: Map<Seq<u8>, Seq<char>>,
    rows: int,
    shelf: Shelf,
) -> Turn {
    let path = path_of(asked.target);
    if shelf.at(path) is Some {
        if asked.method == Method::Get {
            Turn::Done(
                Given {
                    reply: plain_reply(200, (shelf.at(path)->0).0, (shelf.at(path)->0).1),
                    line: None,
                },
            )
        } else {
            wrong_method(path, "GET"@)
        }
    } else if path == SUBMIT_PATH@ {
        if asked.method != Method::Post {
            wrong_method(path, "POST"@)
        } else {
            match asked.submission {
                Err(fault) => Turn::Done(refused(None, 400, fault.spelled(), None)),
                Ok(_) => Turn::Submit,
            }
        }
    } else if path == SUBMISSIONS_PATH@ || path == OBJECT_PATH@ {
        match developer::authorized(named, asked.authorization) {
            Err(denial) => Turn::Done(challenged(path, denial)),
            Ok(_) => pulled(asked, rows),
        }
    } else {
        Turn::Done(
            refused(
                None,
                404,
                "no route "@ + path + ", submissions go to "@ + SUBMIT_PATH@,
                None,
            ),
        )
    }
}

fn refuse_method(path: &str, takes: &str) -> (r: Step)
    ensures
        r@ == wrong_method(path@, takes@),
{
    let mut reason = String::from_str(path);
    reason.append(" takes ");
    reason.append(takes);
    Step::Done(refuse(None, 405, reason.as_str()))
}

/// What one of the two developer routes does for a client that was let in.
fn pull(request: &Request, path: &str, developer: &Developer) -> (r: Step)
    requires
        path@ == path_of(request.target@),
    ensures
        r@ == pulled(request.asked(), developer.asked_rows()),
{
    if request.method != Method::Get {
        return refuse_method(path, "GET");
    }
    if text::same(path, SUBMISSIONS_PATH) {
        match Filters::parse(request.target.as_str()) {
            Ok(filters) => Step::List { filters, max_keys: developer.list_max_rows() },
            Err(error) => Step::Done(refuse(None, 400, error.message().as_str())),
        }
    } else {
        match developer::query_value(request.target.as_str(), KEY_FIELD) {
            Err(error) => Step::Done(refuse(None, 400, error.message().as_str())),
            Ok(key) => {
                if text::is_empty(key.as_str()) {
                    let mut reason = String::from_str("name the object in ?");
                    reason.append(KEY_FIELD);
                    reason.append("=");
                    Step::Done(refuse(None, 400, reason.as_str()))
                } else {
                    Step::Object { key }
                }
            },
        }
    }
}

/// What a request comes to: see `turn_of`.
pub fn answer(request: &Request, developer: &Developer, pages: &Pages) -> (r: Step)
    ensures
        r@ == turn_of(request.asked(), developer.named(), developer.asked_rows(), pages@),
{
    let path = request.path();
    if let Some((content_type, held)) = pages.at(path.as_str()) {
        return if request.method == Method::Get {
            Step::Done(
                Answered { answer: with_bytes(200, content_type, bytes::copied(held)), line: None },
            )
        } else {
            refuse_method(path.as_str(), "GET")
        };
    }
    if text::same(path.as_str(), SUBMIT_PATH) {
        if request.method != Method::Post {
            return refuse_method(path.as_str(), "POST");
        }
        return match &request.submission {
            Err(error) => Step::Done(refuse(None, 400, error.message().as_str())),
            Ok(_) => Step::Submit,
        };
    }
    if text::same(path.as_str(), SUBMISSIONS_PATH) || text::same(path.as_str(), OBJECT_PATH) {
        let presented = match &request.authorization {
            Some(authorization) => Some(authorization.as_str()),
            None => None,
        };
        return match developer.authorize(presented) {
            Err(error) => Step::Done(challenge(path.as_str(), &error)),
            Ok(_) => pull(request, path.as_str(), developer),
        };
    }
    let mut reason = String::from_str("no route ");
    reason.append(path.as_str());
    reason.append(", submissions go to ");
    reason.append(SUBMIT_PATH);
    Step::Done(refuse(None, 404, reason.as_str()))
}

/// A client that is not let in gets the same 401 from a developer route whatever else it sent: the
/// method, the query and the body make no difference.
pub proof fn authentication_comes_first(
    asked: Asked,
    named: Map<Seq<u8>, Seq<char>>,
    rows: int,
    shelf: Shelf,
)
    requires
        path_of(asked.target) == SUBMISSIONS_PATH@ || path_of(asked.target) == OBJECT_PATH@,
        developer::authorized(named, asked.authorization) is Err,
    ensures
        turn_of(asked, named, rows, shelf) is Done,
        turn_of(asked, named, rows, shelf)->Done_0.reply == unauthorized(),
{
    pages_shadow_no_route(shelf);
    reveal_strlit("/v1/submit");
    reveal_strlit("/v1/submissions");
    reveal_strlit("/v1/object");
    assert(SUBMIT_PATH@[4] == 's' && OBJECT_PATH@[4] == 'o');
}

/// No file a deployment serves can stand in the way of a route: the pages' paths are none of the
/// routes' paths.
pub proof fn pages_shadow_no_route(shelf: Shelf)
    ensures
        shelf.at(SUBMIT_PATH@) is None,
        shelf.at(SUBMISSIONS_PATH@) is None,
        shelf.at(OBJECT_PATH@) is None,
{
    reveal_strlit("/");
    reveal_strlit("/details");
    reveal_strlit("/analysis");
    reveal_strlit("/favicon.svg");
    reveal_strlit("/favicon.ico");
    reveal_strlit("/files/");
    reveal_strlit("/v1/submit");
    reveal_strlit("/v1/submissions");
    reveal_strlit("/v1/object");
    assert(SUBMIT_PATH@[1] == 'v' && SUBMISSIONS_PATH@[1] == 'v' && OBJECT_PATH@[1] == 'v');
    assert(DETAILS_PATH@[1] == 'd' && ANALYSIS_PATH@[1] == 'a' && ICON_PATH@[1] == 'f'
        && ICON_LEGACY_PATH@[1] == 'f' && FILES_PREFIX@[1] == 'f');
    assert(PATH@.len() == 1);
    assert(SUBMIT_PATH@.take(7)[1] == 'v');
    assert(SUBMISSIONS_PATH@.take(7)[1] == 'v');
    assert(OBJECT_PATH@.take(7)[1] == 'v');
}

/// An answered request that was not served puts a line in the journal, and one that was puts none.
pub proof fn every_refusal_is_logged(
    asked: Asked,
    named: Map<Seq<u8>, Seq<char>>,
    rows: int,
    shelf: Shelf,
)
    ensures
        turn_of(asked, named, rows, shelf) matches Turn::Done(given) ==> (given.line is Some
            <==> given.reply.status >= 400),
{
}

/// An acknowledgement as the JSON an agent parses.
pub open spec fn ack_text(latest_version: Seq<char>) -> Seq<char> {
    "{\"latest_version\":"@ + outside::json_text(latest_version) + "}"@
}

/// What a submission is answered with, once it was taken in.
pub fn submitted(signer: PoolId, outcome: Result<Ack, IngestError>) -> (r: Answered)
    ensures
        r@ == match outcome {
            Ok(ack) => Given {
                reply: plain_reply(200, JSON@, utf8::encode_utf8(ack_text(ack.latest_version@))),
                line: None,
            },
            Err(IngestError::Rejected(rejection)) => refused(
                Some(signer@),
                status_of(rejection@),
                rejection@.spelled(),
                None,
            ),
            Err(IngestError::Archive(error)) => refused(
                Some(signer@),
                503,
                "the archive cannot be written"@,
                Some(error@.spelled()),
            ),
        },
{
    match outcome {
        Ok(ack) => {
            let mut body = String::from_str("{\"latest_version\":");
            body.append(outside::json_string(ack.latest_version.as_str()).as_str());
            body.append("}");
            Answered {
                answer: with_bytes(200, JSON, bytes::copied(body.as_str().as_bytes())),
                line: None,
            }
        },
        Err(IngestError::Rejected(rejection)) => refuse(
            Some(signer),
            status_for(&rejection),
            rejection.message().as_str(),
        ),
        Err(IngestError::Archive(error)) => unavailable(
            Some(signer),
            "the archive cannot be written",
            error.message().as_str(),
        ),
    }
}

/// What a listing is answered with, once the archive was asked.
pub fn listed(outcome: Result<Page, ArchiveError>) -> (r: Answered)
    ensures
        r@ == match outcome {
            Ok(page) => Given {
                reply: plain_reply(
                    200,
                    JSON@,
                    utf8::encode_utf8(
                        developer::page_text(text::views(page.keys@), page.truncated),
                    ),
                ),
                line: None,
            },
            Err(error) => refused(
                None,
                503,
                "the archive cannot be listed"@,
                Some(error@.spelled()),
            ),
        },
{
    match outcome {
        Ok(page) => {
            let body = developer::page(&page);
            Answered {
                answer: with_bytes(200, JSON, bytes::copied(body.as_str().as_bytes())),
                line: None,
            }
        },
        Err(error) => unavailable(
            None,
            "the archive cannot be listed",
            error.message().as_str(),
        ),
    }
}

/// An object that the archive opened: where it stands, how long it is, and the key and signature
/// that were stored beside it, where they were.
#[derive(Debug)]
pub struct ObjectHead {
    pub key: String,
    pub length: u64,
    pub attestation: Option<Attestation>,
}

/// The headers that carry what a consumer checks the bytes of a download with.
pub open spec fn attested_by(claim: Option<attestation::Claim>) -> Seq<(Seq<char>, Seq<char>)> {
    match claim {
        Some(attestation::Claim::Cold { key, signature }) => seq![
            (HEADER_VKEY@, hex::encoded(key)),
            (HEADER_SIGNATURE@, hex::encoded(signature)),
        ],
        Some(attestation::Claim::Leios { key, signature }) => seq![
            (HEADER_VKEY@, hex::encoded(key)),
            (HEADER_SIGNATURE@, hex::encoded(signature)),
        ],
        None => seq![],
    }
}

/// What an attestation claims, where there is one.
pub open spec fn claim_of(attestation: Option<Attestation>) -> Option<attestation::Claim> {
    match attestation {
        Some(attestation) => Some(attestation@),
        None => None,
    }
}

/// The headers that carry what a consumer checks the bytes of a download with.
pub fn attested(attestation: &Option<Attestation>) -> (r: Vec<(&'static str, String)>)
    ensures
        header_views(r@) == attested_by(claim_of(*attestation)),
{
    let mut r: Vec<(&'static str, String)> = Vec::new();
    match attestation {
        Some(Attestation::ColdKey { vkey, signature }) => {
            r.push((HEADER_VKEY, hex::encode(vkey.bytes.as_slice())));
            r.push((HEADER_SIGNATURE, hex::encode(signature.bytes.as_slice())));
        },
        Some(Attestation::LeiosKey { key, vote }) => {
            r.push((HEADER_VKEY, hex::encode(key.bytes.as_slice())));
            r.push((HEADER_SIGNATURE, hex::encode(vote.as_slice())));
        },
        None => {},
    }
    assert(header_views(r@) =~= attested_by(claim_of(*attestation)));
    r
}

/// A claim whose parts have the sizes of their kind, and whose cold key is one.
pub open spec fn well_sized(claim: attestation::Claim) -> bool {
    match claim {
        attestation::Claim::Cold { key, signature } => key.len() == COLD_KEY_BYTES
            && signature.len() == COLD_SIGNATURE_BYTES && outside::ed25519_refusal(key) is None,
        attestation::Claim::Leios { key, signature } => key.len() == attestation::LEIOS_KEY_BYTES
            && signature.len() == attestation::LEIOS_SIGNATURE_BYTES,
    }
}

/// A download carries what was stored: a consumer reads the same key and signature off its headers.
pub proof fn a_download_is_attested(claim: attestation::Claim)
    requires
        well_sized(claim),
    ensures
        attestation::claimed(
            Some(attested_by(Some(claim))[0].1),
            Some(attested_by(Some(claim))[1].1),
        ) == Ok::<attestation::Claim, attestation::HeaderFault>(claim),
{
    match claim {
        attestation::Claim::Cold { key, signature } => {
            hex::decode_inverts_encode(key);
            hex::decode_inverts_encode(signature);
        },
        attestation::Claim::Leios { key, signature } => {
            hex::decode_inverts_encode(key);
            hex::decode_inverts_encode(signature);
        },
    }
}

/// What a download is answered with, once the archive was asked: the bytes that were archived. No
/// existence check comes first: the archive is the only account of what it holds, so its own 404
/// is the answer.
pub fn opened(outcome: Result<ObjectHead, ArchiveError>) -> (r: Answered)
    ensures
        r@ == match outcome {
            Ok(head) => Given {
                reply: Reply {
                    status: 200,
                    content_type: ZSTD@,
                    body: Written::Stream { key: head.key@, length: head.length },
                    headers: attested_by(claim_of(head.attestation)),
                },
                line: None,
            },
            Err(error) => if error@ is NoSuchObject {
                refused(None, 404, "no such object"@, None)
            } else {
                refused(None, 503, "the archive cannot be read"@, Some(error@.spelled()))
            },
        },
{
    match outcome {
        Ok(head) => {
            let headers = attested(&head.attestation);
            Answered {
                answer: Answer {
                    status: 200,
                    content_type: ZSTD,
                    body: AnswerBody::Stream { key: head.key, length: head.length },
                    headers,
                },
                line: None,
            }
        },
        Err(ArchiveError::NoSuchObject { .. }) => refuse(None, 404, "no such object"),
        Err(error) => unavailable(None, "the archive cannot be read", error.message().as_str()),
    }
}

/// Each refusal has its status: too large a body, too many uploads, what may not be taken in from
/// this signer, and what cannot be taken in from anyone.
pub proof fn each_refusal_has_its_status(refusal: Refusal)
    ensures
        status_of(refusal) == 413 <==> refusal is OversizedBody,
        status_of(refusal) == 429 <==> refusal is RateLimited || refusal is ServerBusy,
        status_of(refusal) == 403 <==> refusal is UnknownPool || refusal is BadSignature
            || refusal is Unauthorised,
        status_of(refusal) == 400 <==> refusal is NotASubmission || refusal is UnreadableHeader
            || refusal is StaleTimestamp || refusal is KeylessSchema,
{
}

/// A page of keys is asked for with as many rows as were configured, and never with more than a
/// thousand.
pub proof fn a_page_is_bounded(rows: int)
    ensures
        bound_of(rows) <= rows,
        bound_of(rows) <= 1000,
        bound_of(rows) == rows || bound_of(rows) == 1000,
        rows > 0 ==> bound_of(rows) > 0,
{
}

/// Whoever may pull and asks for a listing gets one: of the prefix that the client wrote, or of all
/// objects where it wrote none, behind the key that it named.
pub proof fn a_listing_is_listed(
    asked: Asked,
    named: Map<Seq<u8>, Seq<char>>,
    rows: int,
    shelf: Shelf,
    prefix: Seq<char>,
    after: Seq<char>,
)
    requires
        asked.method == Method::Get,
        asked.target == crate::wire::http::listing_target(prefix, after),
        developer::authorized(named, asked.authorization) is Ok,
    ensures
        path_of(asked.target) == SUBMISSIONS_PATH@,
        turn_of(asked, named, rows, shelf) == (Turn::List {
            prefix: if prefix.len() == 0 {
                crate::key::KEY_PREFIX@
            } else {
                prefix
            },
            after,
            max_keys: bound_of(rows),
        }),
{
    developer::listing_target_reads_back(prefix, after);
    pages_shadow_no_route(shelf);
    reveal_strlit("/v1/submissions");
    reveal_strlit("prefix");
    reveal_strlit("after");
    let query = crate::wire::http::PREFIX_FIELD@ + seq!['='] + percent::escaped_text(prefix) + seq![
        '&',
    ] + (crate::wire::http::AFTER_FIELD@ + seq!['='] + percent::escaped_text(after));
    assert(asked.target =~= SUBMISSIONS_PATH@ + seq!['?'] + query);
    text::lemma_halves(SUBMISSIONS_PATH@, '?', query);
    reveal_strlit("/v1/submit");
    assert(SUBMISSIONS_PATH@.len() != SUBMIT_PATH@.len());
}

/// Whoever may pull and asks for an object gets the one that the client named.
pub proof fn an_object_is_opened(
    asked: Asked,
    named: Map<Seq<u8>, Seq<char>>,
    rows: int,
    shelf: Shelf,
    key: Seq<char>,
)
    requires
        asked.method == Method::Get,
        asked.target == crate::wire::http::object_target(key),
        developer::authorized(named, asked.authorization) is Ok,
        key.len() > 0,
    ensures
        path_of(asked.target) == OBJECT_PATH@,
        turn_of(asked, named, rows, shelf) == (Turn::Object { key }),
{
    developer::object_target_reads_back(key);
    pages_shadow_no_route(shelf);
    reveal_strlit("/v1/object");
    reveal_strlit("key");
    let query = KEY_FIELD@ + seq!['='] + percent::escaped_text(key);
    assert(asked.target =~= OBJECT_PATH@ + seq!['?'] + query);
    text::lemma_halves(OBJECT_PATH@, '?', query);
    reveal_strlit("/v1/submit");
    reveal_strlit("/v1/submissions");
    assert(OBJECT_PATH@[4] == 'o' && SUBMIT_PATH@[4] == 's');
    assert(OBJECT_PATH@.len() != SUBMISSIONS_PATH@.len());
}

/// Nobody lists or opens anything without an account, and nothing is taken in, listed or opened
/// with another method than its own or at another path.
pub proof fn each_route_asks_for_its_own(
    asked: Asked,
    named: Map<Seq<u8>, Seq<char>>,
    rows: int,
    shelf: Shelf,
)
    ensures
        turn_of(asked, named, rows, shelf) is List ==> asked.method == Method::Get && path_of(
            asked.target,
        ) == SUBMISSIONS_PATH@ && developer::authorized(named, asked.authorization) is Ok,
        turn_of(asked, named, rows, shelf) is Object ==> asked.method == Method::Get && path_of(
            asked.target,
        ) == OBJECT_PATH@ && developer::authorized(named, asked.authorization) is Ok,
        turn_of(asked, named, rows, shelf) is Submit ==> asked.method == Method::Post && path_of(
            asked.target,
        ) == SUBMIT_PATH@ && asked.submission is Ok,
        shelf.at(path_of(asked.target)) is Some && asked.method == Method::Get ==> turn_of(
            asked,
            named,
            rows,
            shelf,
        ) is Done && turn_of(asked, named, rows, shelf)->Done_0.reply.status == 200,
        shelf.at(path_of(asked.target)) is None && path_of(asked.target) != SUBMIT_PATH@ && path_of(
            asked.target,
        ) != SUBMISSIONS_PATH@ && path_of(asked.target) != OBJECT_PATH@ ==> turn_of(
            asked,
            named,
            rows,
            shelf,
        ) is Done && turn_of(asked, named, rows, shelf)->Done_0.reply.status == 404,
{
}

/// A file is found under its own name, the first of that name, and none where none has it.
pub proof fn a_file_is_found_by_name(files: Seq<Offered>, name: Seq<char>)
    ensures
        file_named(files, name) is None <==> forall|i: int|
            0 <= i < files.len() ==> (#[trigger] files[i]).name != name,
        file_named(files, name) matches Some(file) ==> file.name == name && files.contains(file),
    decreases files.len(),
{
    if files.len() > 0 {
        assert(files.contains(files[0]));
        if files[0].name != name {
            let rest = files.skip(1);
            a_file_is_found_by_name(rest, name);
            if let Some(file) = file_named(rest, name) {
                let i = choose|i: int| 0 <= i < rest.len() && rest[i] == file;
                assert(files[i + 1] == file);
            }
            assert(forall|i: int| 0 <= i < rest.len() ==> rest[i] == #[trigger] files[i + 1]);
            assert forall|i: int| file_named(rest, name) is None && 0 <= i < files.len() implies (
            #[trigger] files[i]).name != name by {
                if i > 0 {
                    assert(rest[i - 1] == files[i]);
                }
            }
        }
    }
}

/// A cold key's two headers read back, and no others do: the key is of its length, the signature of
/// its own, and the key is a point.
pub proof fn the_cold_headers_read_back(key: Seq<u8>, signature: Seq<u8>)
    ensures
        cold_headers(Some(hex::encoded(key)), Some(hex::encoded(signature))) is Ok <==> key.len()
            == 32 && signature.len() == 64 && outside::ed25519_refusal(key) is None,
        cold_headers(Some(hex::encoded(key)), Some(hex::encoded(signature))) matches Ok(read)
            ==> read == (key, signature),
        cold_headers(None, Some(hex::encoded(signature))) is Err,
        cold_headers(Some(hex::encoded(key)), None) is Err,
{
    hex::decode_inverts_encode(key);
    hex::decode_inverts_encode(signature);
}

/// Each page stands at its own path, and each file at its own name below the files.
pub proof fn each_page_stands_at_its_path(shelf: Shelf, name: Seq<char>)
    ensures
        shelf.at(PATH@) == Some((HTML@, shelf.quickstart)),
        shelf.at(DETAILS_PATH@) == Some((HTML@, shelf.details)),
        shelf.at(ANALYSIS_PATH@) == Some((HTML@, shelf.analysis)),
        shelf.at(ICON_PATH@) == Some((ICON_CONTENT_TYPE@, shelf.icon)),
        shelf.at(ICON_LEGACY_PATH@) == Some((ICON_CONTENT_TYPE@, shelf.icon)),
        shelf.at(FILES_PREFIX@ + name) is Some <==> file_named(shelf.files, name) is Some,
        file_named(shelf.files, name) matches Some(file) ==> shelf.at(FILES_PREFIX@ + name) == Some(
            (file.content_type, file.bytes),
        ),
{
    reveal_strlit("/");
    reveal_strlit("/details");
    reveal_strlit("/analysis");
    reveal_strlit("/favicon.svg");
    reveal_strlit("/favicon.ico");
    reveal_strlit("/files/");
    assert(PATH@.len() == 1 && DETAILS_PATH@.len() == 8 && ANALYSIS_PATH@.len() == 9);
    assert(ICON_PATH@.len() == 12 && ICON_LEGACY_PATH@.len() == 12 && FILES_PREFIX@.len() == 7);
    let path = FILES_PREFIX@ + name;
    assert(path[1] == 'f' && path[2] == 'i');
    assert(DETAILS_PATH@[1] == 'd' && ANALYSIS_PATH@[1] == 'a');
    assert(ICON_PATH@[2] == 'a' && ICON_LEGACY_PATH@[2] == 'a');
    assert(path.take(7) =~= FILES_PREFIX@);
    assert(path.skip(7) =~= name);
}

/// A target is its path, up to the first question mark.
pub proof fn a_path_ends_at_its_query(path: Seq<char>, query: Seq<char>)
    requires
        !path.contains('?'),
    ensures
        path_of(path) == path,
        path_of(path + seq!['?'] + query) == path,
        developer::query_of(path + seq!['?'] + query) == query,
{
    text::lemma_position(path, '?');
    text::lemma_halves(path, '?', query);
}

/// A refusal is answered with its status and its reason, and logged with who was refused; what is
/// withheld from the client is in the log alone, and a failure of the server is logged as an error.
pub proof fn a_refusal_says_its_reason(
    signer: Option<Seq<u8>>,
    status: u16,
    reason: Seq<char>,
    withheld: Option<Seq<char>>,
)
    ensures
        refused(signer, status, reason, withheld).reply.status == status,
        refused(signer, status, reason, withheld).reply.body == Written::Bytes(
            utf8::encode_utf8(reason),
        ),
        refused(signer, status, reason, withheld).line matches Some(line) && text::begins(
            line,
            if status >= 500 {
                ERR@
            } else {
                WARNING@
            },
        ) && text::ends(
            line,
            match withheld {
                Some(withheld) => withheld,
                None => reason,
            },
        ),
{
    let logged = match withheld {
        Some(withheld) => reason + ": "@ + withheld,
        None => reason,
    };
    let level = if status >= 500 {
        ERR@
    } else {
        WARNING@
    };
    let line = refusal_line(signer, status, logged);
    let behind = "refused "@ + signer_text(signer) + ": "@ + text::decimal(status as int) + ", "@
        + logged;
    assert(line =~= level + behind);
    text::parts_come_apart(level, behind);
    let before = level + "refused "@ + signer_text(signer) + ": "@ + text::decimal(status as int)
        + ", "@;
    assert(line =~= before + logged);
    text::parts_come_apart(before, logged);
    if let Some(withheld) = withheld {
        assert(line =~= (before + reason + ": "@) + withheld);
        text::parts_come_apart(before + reason + ": "@, withheld);
    }
}

}
