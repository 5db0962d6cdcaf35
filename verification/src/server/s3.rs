//! The production archive: one PUT per accepted submission, before it is acknowledged.
//!
//! Requests are presigned: a signed URL is what the signer hands out, and the HTTP client has no
//! hook for signing headers as they go out. What is sent, how often and what an answer means is
//! decided here; the sending is not.

use vstd::prelude::*;

use crate::bytes;
use crate::count::NonZeroU32;
use crate::hex;
use crate::hex::HexError;
use crate::key;
use crate::key::{ObjectName, KEY_PREFIX};
use crate::outside;
use crate::server::archive::{
    ArchiveError, ArchiveFault, FetchedObject, Page, StoredSubmission,
};
use crate::server::config::S3Config;
use crate::server::http;
use crate::server::http::ObjectHead;
use crate::text;
use crate::wire;
use crate::wire::attestation;
use crate::wire::attestation::{
    Attestation, LeiosPublicKey, COLD_KEY_BYTES, COLD_SIGNATURE_BYTES, LEIOS_KEY_BYTES,
    LEIOS_SIGNATURE_BYTES,
};
use crate::wire::journal::WARNING;
use crate::wire::signing::{Signature, VerifyingKey};

verus! {

/// The metadata an object carries beside its bytes: the two facts that are not inside them, and the
/// whole verification input with them.
pub const META_SIGNATURE: &'static str = "x-amz-meta-signature";

pub const META_VKEY: &'static str = "x-amz-meta-vkey";

/// Where a bucket is, who signs for it, and for how long a signature holds.
pub struct Target {
    pub endpoint: String,
    pub bucket: String,
    pub region: String,
    pub key_id: String,
    pub secret: String,
    pub token: Option<String>,
    pub validity_secs: u64,
}

/// What a `Target` is, over plain values.
pub struct Aim {
    pub endpoint: Seq<char>,
    pub bucket: Seq<char>,
    pub region: Seq<char>,
    pub key_id: Seq<char>,
    pub secret: Seq<char>,
    pub token: Option<Seq<char>>,
    pub validity_secs: int,
}

impl View for Target {
    type V = Aim;

    open spec fn view(&self) -> Aim {
        Aim {
            endpoint: self.endpoint@,
            bucket: self.bucket@,
            region: self.region@,
            key_id: self.key_id@,
            secret: self.secret@,
            token: text::view_of(self.token),
            validity_secs: self.validity_secs as int,
        }
    }
}

/// An endpoint that serves no bucket.
#[derive(Debug)]
pub enum S3Error {
    Endpoint { endpoint: String, reason: String },
}

impl S3Error {
    /// What an operator reads.
    pub open spec fn spelled(self) -> Seq<char> {
        match self {
            S3Error::Endpoint { endpoint, reason } => "endpoint "@ + endpoint@
                + " is not an S3 endpoint: "@ + reason@,
        }
    }

    /// What an operator reads.
    pub fn message(&self) -> (r: String)
        ensures
            r@ == self.spelled(),
    {
        match self {
            S3Error::Endpoint { endpoint, reason } => {
                let mut r = String::from_str("endpoint ");
                r.append(endpoint.as_str());
                r.append(" is not an S3 endpoint: ");
                r.append(reason.as_str());
                r
            },
        }
    }
}

/// An archive in a bucket.
pub struct S3Archive {
    target: Target,
    base_url: String,
    put_retries: u32,
    put_retry_backoff_ms: u64,
    list_max_pages: NonZeroU32,
}

/// Whether a presigned URL asks at a place: it is that place, and a query behind it.
pub open spec fn asks_at(url: Seq<char>, place: Seq<char>) -> bool {
    text::begins(url, place + "?"@)
}

impl S3Archive {
    #[verifier::type_invariant]
    spec fn well_formed(self) -> bool {
        outside::s3_base_of(self.target.endpoint@, self.target.bucket@) == Ok::<
            Seq<char>,
            Seq<char>,
        >(self.base_url@)
    }

    /// Where the bucket is, who signs for it, and for how long a signature holds.
    pub closed spec fn aim(self) -> Aim {
        self.target@
    }

    /// The URL of the bucket.
    pub closed spec fn base(self) -> Seq<char> {
        self.base_url@
    }

    /// How often a PUT is tried again.
    pub closed spec fn retries(self) -> int {
        self.put_retries as int
    }

    /// How long a PUT waits before it is tried again, in milliseconds.
    pub closed spec fn backoff_ms(self) -> int {
        self.put_retry_backoff_ms as int
    }

    /// How many pages a walk over every key may take.
    pub closed spec fn max_pages(self) -> int {
        self.list_max_pages@
    }

    /// The archive a config names. Path style: the bucket name stays in the path, which is what an
    /// S3-compatible endpoint without wildcard DNS serves.
    pub fn new(
        config: &S3Config,
        key_id: String,
        secret: String,
        token: Option<String>,
    ) -> (r: Result<S3Archive, S3Error>)
        ensures
            match r {
                Ok(archive) => {
                    &&& outside::s3_base_of(config.endpoint@, config.bucket@) == Ok::<
                        Seq<char>,
                        Seq<char>,
                    >(archive.base())
                    &&& archive.aim() == (Aim {
                        endpoint: config.endpoint@,
                        bucket: config.bucket@,
                        region: config.region@,
                        key_id: key_id@,
                        secret: secret@,
                        token: text::view_of(token),
                        validity_secs: config.signature_validity_secs@,
                    })
                    &&& archive.retries() == config.put_retries
                    &&& archive.backoff_ms() == config.put_retry_backoff_ms@
                    &&& archive.max_pages() == config.list_max_pages@
                },
                Err(S3Error::Endpoint { endpoint, reason }) => endpoint@ == config.endpoint@
                    && outside::s3_base_of(config.endpoint@, config.bucket@) == Err::<
                    Seq<char>,
                    Seq<char>,
                >(reason@),
            },
    {
        match outside::s3_base(
            config.endpoint.as_str(),
            config.bucket.as_str(),
            config.region.as_str(),
        ) {
            Err(reason) => Err(S3Error::Endpoint { endpoint: config.endpoint.clone(), reason }),
            Ok(base_url) => Ok(
                S3Archive {
                    target: Target {
                        endpoint: config.endpoint.clone(),
                        bucket: config.bucket.clone(),
                        region: config.region.clone(),
                        key_id,
                        secret,
                        token,
                        validity_secs: config.signature_validity_secs.get(),
                    },
                    base_url,
                    put_retries: config.put_retries,
                    put_retry_backoff_ms: config.put_retry_backoff_ms.get(),
                    list_max_pages: config.list_max_pages,
                },
            ),
        }
    }

    /// What an operator calls this archive.
    pub fn location(&self) -> (r: String)
        ensures
            r@ == self.aim().bucket + " at "@ + self.base(),
    {
        let mut r = self.target.bucket.clone();
        r.append(" at ");
        r.append(self.base_url.as_str());
        r
    }

    /// How long a PUT waits before it is tried again, in milliseconds.
    pub fn put_retry_backoff_ms(&self) -> (r: u64)
        ensures
            r == self.backoff_ms(),
    {
        self.put_retry_backoff_ms
    }

    /// Where a submission is PUT. Every metadata header sent is signed: the endpoint refuses a
    /// presigned request carrying one that is not.
    pub fn put_url(&self, submission: &StoredSubmission<'_>) -> (r: String)
        requires
            key::stampable(submission.name.id),
        ensures
            asks_at(
                r@,
                outside::s3_object_of(
                    self.aim().endpoint,
                    self.aim().bucket,
                    submission.name@.key(),
                ),
            ),
            exists|instant: int|
                r@ == #[trigger] outside::s3_put_signed(
                    self.aim(),
                    submission.name@.key(),
                    metadata_of(submission.attestation@),
                    instant,
                ),
    {
        proof {
            use_type_invariant(self);
        }
        let named = submission.object_key();
        let signed = metadata(&submission.attestation);
        outside::s3_sign_put(&self.target, named.as_str(), signed.as_slice())
    }

    /// Where an object is asked for, or why nothing is asked. Parsed before it is signed into a
    /// URL: nothing but an object key reaches the bucket, whatever a client asked for.
    pub fn get_url(&self, key: &str) -> (r: Result<String, ArchiveError>)
        ensures
            match r {
                Ok(url) => {
                    &&& key::parsed(key@) is Ok
                    &&& asks_at(
                        url@,
                        outside::s3_object_of(self.aim().endpoint, self.aim().bucket, key@),
                    )
                    &&& exists|instant: int|
                        url@ == #[trigger] outside::s3_get_signed(self.aim(), key@, instant)
                },
                Err(error) => key::parsed(key@) is Err && error@ == (ArchiveFault::Fetch {
                    key: key@,
                    reason: key::key_fault_text(key@, key::parsed(key@)->Err_0),
                }),
            },
    {
        proof {
            use_type_invariant(self);
        }
        match ObjectName::parse(key) {
            Err(error) => Err(refuse_fetch(key, error.message())),
            Ok(_) => Ok(outside::s3_sign_get(&self.target, key)),
        }
    }

    /// Where one page of keys is asked for: those under a prefix, behind a cursor that is not
    /// empty, and at most so many. The prefix goes out verbatim: an object key carries the
    /// archive's own.
    pub fn page_url(&self, prefix: &str, after: &str, max_keys: NonZeroU32) -> (r: String)
        ensures
            asks_at(r@, self.base()),
            exists|instant: int|
                r@ == #[trigger] outside::s3_list_signed(
                    self.aim(),
                    paged_by(prefix@, after@, max_keys@),
                    instant,
                ),
    {
        proof {
            use_type_invariant(self);
        }
        let fields = page_fields(prefix, after, max_keys);
        outside::s3_sign_list(&self.target, fields.as_slice())
    }

    /// Where the next page of a walk over every key is asked for.
    pub fn walk_url(&self, walk: &Walk) -> (r: String)
        ensures
            asks_at(r@, self.base()),
            exists|instant: int|
                r@ == #[trigger] outside::s3_list_signed(
                    self.aim(),
                    walked_by(walk.state().0),
                    instant,
                ),
    {
        proof {
            use_type_invariant(self);
        }
        let fields = walk.fields();
        outside::s3_sign_list(&self.target, fields.as_slice())
    }

    /// A walk over every key, from its start.
    pub fn walk(&self) -> (r: Walk)
        ensures
            r.state() == (None::<Seq<char>>, 0int, self.max_pages()),
            0 < self.max_pages(),
    {
        let max: u32 = self.list_max_pages.get();
        assert(0 < max);
        Walk { token: None, pages: 0, max_pages: self.list_max_pages }
    }

    /// A PUT, before its first attempt.
    pub fn attempts(&self) -> (r: Attempts)
        ensures
            r.made == 0,
            r.retries == self.retries(),
    {
        Attempts { made: 0, retries: self.put_retries }
    }
}

/// The metadata stored beside the bytes a key signed.
pub open spec fn metadata_of(claim: attestation::Claim) -> Seq<(Seq<char>, Seq<char>)> {
    match claim {
        attestation::Claim::Cold { key, signature } => seq![
            (META_SIGNATURE@, hex::encoded(signature)),
            (META_VKEY@, hex::encoded(key)),
        ],
        attestation::Claim::Leios { key, signature } => seq![
            (META_SIGNATURE@, hex::encoded(signature)),
            (META_VKEY@, hex::encoded(key)),
        ],
    }
}

/// The metadata stored beside the bytes a key signed.
pub fn metadata(attestation: &Attestation) -> (r: Vec<(&'static str, String)>)
    ensures
        http::header_views(r@) == metadata_of(attestation@),
{
    let mut r: Vec<(&'static str, String)> = Vec::new();
    match attestation {
        Attestation::ColdKey { vkey, signature } => {
            r.push((META_SIGNATURE, hex::encode(signature.bytes.as_slice())));
            r.push((META_VKEY, hex::encode(vkey.bytes.as_slice())));
        },
        Attestation::LeiosKey { key, vote } => {
            r.push((META_SIGNATURE, hex::encode(vote.as_slice())));
            r.push((META_VKEY, hex::encode(key.bytes.as_slice())));
        },
    }
    assert(http::header_views(r@) =~= metadata_of(attestation@));
    r
}

/// A single failed attempt, transport error and refusal alike. `status` is the endpoint's own, and
/// `None` where the request never got an answer to read one off.
#[derive(Debug)]
pub struct Failure {
    pub reason: String,
    pub retryable: bool,
    pub status: Option<u16>,
}

/// What kept a request from being answered, told apart as far as a second attempt has to.
#[derive(Debug, Clone, Copy, PartialEq, Eq, Structural)]
pub enum Transport {
    BadUri,
    Http,
    HostNotFound,
    InvalidProxyUrl,
    Tls,
    Pem,
    Rustls,
    BodyExceedsLimit,
    /// Anything else.
    Other,
}

/// Whether a transport failure is worth a second attempt. A name that does not resolve, a
/// certificate that does not verify and a URL that will not parse are deployment errors: retrying
/// them costs the client a whole timeout before it hears the reason.
pub open spec fn is_transient(failure: Transport) -> bool {
    failure == Transport::Other
}

/// Whether a transport failure is worth a second attempt: see `is_transient`.
pub fn transient(failure: Transport) -> (r: bool)
    ensures
        r == is_transient(failure),
{
    match failure {
        Transport::BadUri
        | Transport::Http
        | Transport::HostNotFound
        | Transport::InvalidProxyUrl
        | Transport::Tls
        | Transport::Pem
        | Transport::Rustls
        | Transport::BodyExceedsLimit => false,
        Transport::Other => true,
    }
}

/// A request that was not answered.
pub fn unanswered(failure: Transport, reason: String) -> (r: Failure)
    ensures
        r.reason@ == reason@,
        r.retryable == is_transient(failure),
        r.status is None,
{
    Failure { reason, retryable: transient(failure), status: None }
}

/// An answer whose body did not read. Same matching as a request that was not answered: an answer
/// over the body limit reads the same way however often it is asked for.
pub fn unreadable_answer(failure: Transport, error: &str) -> (r: Failure)
    ensures
        r.reason@ == "unreadable answer: "@ + error@,
        r.retryable == is_transient(failure),
        r.status is None,
{
    let mut reason = String::from_str("unreadable answer: ");
    reason.append(error);
    Failure { reason, retryable: transient(failure), status: None }
}

/// What an answer's status makes of a request: nothing where it was served, and otherwise a failure
/// that says what the endpoint said.
pub fn refused(status: u16, said: &str) -> (r: Option<Failure>)
    ensures
        match r {
            None => wire::http::is_success(status),
            Some(failure) => {
                &&& !wire::http::is_success(status)
                &&& failure.reason@ == "the endpoint answered "@ + text::decimal(status as int)
                    + ": "@ + said@
                &&& failure.retryable == wire::http::is_retryable(status)
                &&& failure.status == Some(status)
            },
        },
{
    if 200 <= status && status <= 299 {
        return None;
    }
    let mut reason = String::from_str("the endpoint answered ");
    reason.append(text::decimal_of(status as u128).as_str());
    reason.append(": ");
    reason.append(said);
    Some(Failure { reason, retryable: !(400 <= status && status <= 499), status: Some(status) })
}

/// A PUT and how often it was tried.
#[derive(Debug)]
pub struct Attempts {
    pub made: u32,
    pub retries: u32,
}

/// What follows a PUT that failed.
#[derive(Debug)]
pub enum Retry {
    /// Wait, and try again.
    Again { line: String },
    GiveUp(ArchiveError),
}

/// Whether a failed attempt is followed by another, which would be attempt `made + 1`.
pub open spec fn tries_again(retryable: bool, made: int, retries: int) -> bool {
    retryable && made <= retries
}

impl Attempts {
    /// What follows an attempt that failed.
    pub fn failed(&mut self, key: &str, failure: Failure) -> (r: Retry)
        requires
            old(self).made < u32::MAX,
        ensures
            final(self).made == old(self).made + 1,
            final(self).retries == old(self).retries,
            match r {
                Retry::Again { line } => {
                    &&& tries_again(
                        failure.retryable,
                        final(self).made as int,
                        final(self).retries as int,
                    )
                    &&& line@ == WARNING@ + "retrying the PUT of "@ + key@ + ": "@ + failure.reason@
                },
                Retry::GiveUp(error) => {
                    &&& !tries_again(
                        failure.retryable,
                        final(self).made as int,
                        final(self).retries as int,
                    )
                    &&& error@ == (ArchiveFault::Upload {
                        key: key@,
                        attempts: final(self).made as int,
                        reason: failure.reason@,
                    })
                },
            },
    {
        self.made += 1;
        if failure.retryable && self.made <= self.retries {
            let mut line = String::from_str(WARNING);
            line.append("retrying the PUT of ");
            line.append(key);
            line.append(": ");
            line.append(failure.reason.as_str());
            Retry::Again { line }
        } else {
            Retry::GiveUp(
                ArchiveError::Upload {
                    key: String::from_str(key),
                    attempts: self.made,
                    reason: failure.reason,
                },
            )
        }
    }
}

/// A PUT is tried at most once more than it may be retried: after that many failures, whatever they
/// were, it is given up.
pub proof fn attempts_are_bounded(retryable: bool, made: int, retries: int)
    ensures
        tries_again(retryable, made, retries) ==> made + 1 <= retries + 1,
        made == retries + 1 ==> !tries_again(retryable, made, retries),
        !tries_again(false, made, retries),
{
}

/// A walk over every key of an archive, page by page.
#[derive(Debug)]
pub struct Walk {
    token: Option<String>,
    pages: u32,
    max_pages: NonZeroU32,
}

/// What follows a page of a walk.
#[derive(Debug)]
pub enum Next {
    Done,
    More,
    Refused(ArchiveError),
}

/// What a `Next` is, over plain values.
pub enum Onward {
    Done,
    More,
    Refused(ArchiveFault),
}

impl View for Next {
    type V = Onward;

    open spec fn view(&self) -> Onward {
        match *self {
            Next::Done => Onward::Done,
            Next::More => Onward::More,
            Next::Refused(error) => Onward::Refused(error@),
        }
    }
}

/// What is said of a listing that did not read.
pub open spec fn unlisted(reason: Seq<char>) -> ArchiveFault {
    ArchiveFault::List { reason: "the listing does not parse: "@ + reason }
}

/// What follows a page that carries a continuation token or none, which is the `pages`-th of a walk
/// that resumed from `token`. A token that does not advance would resume the same page forever, and
/// a hang is worse news than a bound that fails.
pub open spec fn onward(
    token: Option<Seq<char>>,
    pages: int,
    max_pages: int,
    next: Option<Seq<char>>,
) -> Onward {
    match next {
        None => Onward::Done,
        Some(next) => if token == Some(next) {
            Onward::Refused(
                ArchiveFault::List {
                    reason: "page "@ + text::decimal(pages)
                        + " handed back its own continuation token "@ + outside::quoted(next),
                },
            )
        } else if pages >= max_pages {
            Onward::Refused(
                ArchiveFault::List {
                    reason: "the listing is still truncated after "@ + text::decimal(max_pages)
                        + " pages (list_max_pages)"@,
                },
            )
        } else {
            Onward::More
        },
    }
}

/// The query the next page of a walk is asked with.
pub open spec fn walked_by(token: Option<Seq<char>>) -> Seq<(Seq<char>, Seq<char>)> {
    match token {
        None => seq![("prefix"@, KEY_PREFIX@)],
        Some(token) => seq![("prefix"@, KEY_PREFIX@), ("continuation-token"@, token)],
    }
}

/// What a listing was read as, over plain values.
pub open spec fn listing_view(listing: Result<(Vec<String>, Option<String>), String>) -> Result<
    (Seq<Seq<char>>, Option<Seq<char>>),
    Seq<char>,
> {
    match listing {
        Ok((keys, next)) => Ok((text::views(keys@), text::view_of(next))),
        Err(reason) => Err(reason@),
    }
}

impl Walk {
    #[verifier::type_invariant]
    spec fn well_formed(self) -> bool {
        self.pages <= self.max_pages@
    }

    /// The token the next page resumes from, how many pages were read, and how many may be.
    pub closed spec fn state(self) -> (Option<Seq<char>>, int, int) {
        (text::view_of(self.token), self.pages as int, self.max_pages@)
    }

    /// The query the next page is asked with.
    pub fn fields(&self) -> (r: Vec<(&'static str, String)>)
        ensures
            http::header_views(r@) == walked_by(self.state().0),
    {
        let mut r: Vec<(&'static str, String)> = Vec::new();
        r.push(("prefix", String::from_str(KEY_PREFIX)));
        if let Some(token) = &self.token {
            r.push(("continuation-token", token.clone()));
        }
        assert(http::header_views(r@) =~= walked_by(self.state().0));
        r
    }

    /// Take in a page, once its listing was read or could not be: its keys, and what follows. A
    /// truncated listing hands back the token to resume from.
    pub fn took(&mut self, listing: Result<(Vec<String>, Option<String>), String>) -> (r: Result<
        (Vec<String>, Next),
        ArchiveError,
    >)
        requires
            old(self).state().1 < old(self).state().2,
        ensures
            final(self).state().2 == old(self).state().2,
            final(self).state().1 == old(self).state().1 + 1,
            match r {
                Err(error) => listing_view(listing) is Err && error@ == unlisted(
                    listing_view(listing)->Err_0,
                ),
                Ok((keys, next)) => listing_view(listing) matches Ok((listed, token)) && text::views(
                    keys@,
                ) == listed && next@ == onward(
                    old(self).state().0,
                    final(self).state().1,
                    final(self).state().2,
                    token,
                ) && (next@ is More ==> final(self).state().0 == token && final(self).state().1
                    < final(self).state().2),
            },
    {
        proof {
            use_type_invariant(&*self);
        }
        let max: u32 = self.max_pages.get();
        self.pages = self.pages + 1;
        match listing {
            Err(reason) => Err(unparsed(reason)),
            Ok((keys, None)) => Ok((keys, Next::Done)),
            Ok((keys, Some(next))) => {
                let repeated = match &self.token {
                    Some(token) => text::same(token.as_str(), next.as_str()),
                    None => false,
                };
                if repeated {
                    let mut reason = String::from_str("page ");
                    reason.append(text::decimal_of(self.pages as u128).as_str());
                    reason.append(" handed back its own continuation token ");
                    reason.append(outside::quote(next.as_str()).as_str());
                    return Ok((keys, Next::Refused(ArchiveError::List { reason })));
                }
                if self.pages >= max {
                    let mut reason = String::from_str("the listing is still truncated after ");
                    reason.append(text::decimal_of(max as u128).as_str());
                    reason.append(" pages (list_max_pages)");
                    return Ok((keys, Next::Refused(ArchiveError::List { reason })));
                }
                self.token = Some(next);
                Ok((keys, Next::More))
            },
        }
    }

    /// Take in the text of a page: see `took`.
    pub fn read(&mut self, page: &str) -> (r: Result<(Vec<String>, Next), ArchiveError>)
        requires
            old(self).state().1 < old(self).state().2,
        ensures
            final(self).state().2 == old(self).state().2,
            final(self).state().1 == old(self).state().1 + 1,
            match r {
                Err(error) => outside::s3_listing_of(page@) is Err && error@ == unlisted(
                    outside::s3_listing_of(page@)->Err_0,
                ),
                Ok((keys, next)) => outside::s3_listing_of(page@) matches Ok((listed, token))
                    && text::views(keys@) == listed && next@ == onward(
                    old(self).state().0,
                    final(self).state().1,
                    final(self).state().2,
                    token,
                ) && (next@ is More ==> final(self).state().0 == token && final(self).state().1
                    < final(self).state().2),
            },
    {
        let listing = outside::s3_listing(page);
        self.took(listing)
    }
}

/// A walk goes on only within its bound, and only from a token it has not just resumed from.
pub proof fn a_walk_ends(
    token: Option<Seq<char>>,
    pages: int,
    max_pages: int,
    next: Option<Seq<char>>,
)
    ensures
        onward(token, pages, max_pages, next) is More ==> pages < max_pages && next is Some && next
            != token,
        onward(token, pages, max_pages, None) is Done,
{
}

fn unparsed(reason: String) -> (r: ArchiveError)
    ensures
        r@ == unlisted(reason@),
{
    let mut said = String::from_str("the listing does not parse: ");
    said.append(reason.as_str());
    ArchiveError::List { reason: said }
}

/// The most keys a listing is ever asked for: more does not fit what an endpoint echoes back.
pub const MAX_KEYS: u32 = 65535;

/// How many keys a listing is asked for.
pub open spec fn most_keys(max_keys: int) -> int {
    if max_keys <= MAX_KEYS {
        max_keys
    } else {
        MAX_KEYS as int
    }
}

/// The query one page is asked with.
pub open spec fn paged_by(prefix: Seq<char>, after: Seq<char>, max_keys: int) -> Seq<
    (Seq<char>, Seq<char>),
> {
    seq![("prefix"@, prefix), ("max-keys"@, text::decimal(most_keys(max_keys)))] + (if after.len()
        == 0 {
        seq![]
    } else {
        seq![("start-after"@, after)]
    })
}

/// The query one page is asked with: the client's prefix and cursor go upstream as they are, and
/// the bound is already at or under the endpoint's own.
pub fn page_fields(prefix: &str, after: &str, max_keys: NonZeroU32) -> (r: Vec<
    (&'static str, String),
>)
    ensures
        http::header_views(r@) == paged_by(prefix@, after@, max_keys@),
{
    let mut r: Vec<(&'static str, String)> = Vec::new();
    r.push(("prefix", String::from_str(prefix)));
    let asked: u32 = max_keys.get();
    let most: u32 = if asked <= MAX_KEYS {
        asked
    } else {
        MAX_KEYS
    };
    r.push(("max-keys", text::decimal_of(most as u128)));
    if !text::is_empty(after) {
        r.push(("start-after", String::from_str(after)));
    }
    assert(http::header_views(r@) =~= paged_by(prefix@, after@, max_keys@));
    r
}

/// The page a listing is, once it was read or could not be. The continuation token stands for
/// whether it is truncated: the endpoint returns one exactly when there is more after this page.
pub fn page_of(listing: Result<(Vec<String>, Option<String>), String>) -> (r: Result<
    Page,
    ArchiveError,
>)
    ensures
        match r {
            Ok(page) => listing_view(listing) matches Ok((keys, next)) && text::views(page.keys@)
                == keys && page.truncated == (next is Some),
            Err(error) => listing_view(listing) is Err && error@ == unlisted(
                listing_view(listing)->Err_0,
            ),
        },
{
    match listing {
        Ok((keys, next)) => Ok(Page { keys, truncated: next.is_some() }),
        Err(reason) => Err(unparsed(reason)),
    }
}

/// The page a listing's text is.
pub fn page(listing: &str) -> (r: Result<Page, ArchiveError>)
    ensures
        match r {
            Ok(page) => outside::s3_listing_of(listing@) matches Ok((keys, next)) && text::views(
                page.keys@,
            ) == keys && page.truncated == (next is Some),
            Err(error) => outside::s3_listing_of(listing@) is Err && error@ == unlisted(
                outside::s3_listing_of(listing@)->Err_0,
            ),
        },
{
    let read = outside::s3_listing(listing);
    page_of(read)
}

/// One metadata header of an answer.
#[derive(Debug)]
pub enum Meta {
    Absent,
    NotText,
    Said(String),
}

/// The text of a metadata header, or what is wrong with it.
pub open spec fn meta_text(meta: Meta, header: Seq<char>) -> Result<Seq<char>, Seq<char>> {
    match meta {
        Meta::Absent => Err("no "@ + header + " on the object"@),
        Meta::NotText => Err(header + " is not text"@),
        Meta::Said(said) => Ok(said@),
    }
}

/// What is said of a metadata header that does not decode.
pub open spec fn not_hex_text(header: Seq<char>, fault: Seq<char>, said: Seq<char>) -> Seq<char> {
    header + " is not hex: "@ + fault + " ("@ + outside::quoted(said) + ")"@
}

/// The bytes a metadata header spells, or what is wrong with it.
pub open spec fn meta_bytes(meta: Meta, header: Seq<char>) -> Result<
    (Seq<u8>, Seq<char>),
    Seq<char>,
> {
    match meta_text(meta, header) {
        Err(fault) => Err(fault),
        Ok(said) => match hex::decoded(said) {
            None => Err(not_hex_text(header, HexError::NotHex.spelled(), said)),
            Some(found) => Ok((found, said)),
        },
    }
}

/// What is said of a metadata header that decodes to another number of bytes.
pub open spec fn wrong_size_text(header: Seq<char>, found: int, expected: int, said: Seq<char>) -> Seq<
    char,
> {
    not_hex_text(
        header,
        text::decimal(found) + " bytes, expected "@ + text::decimal(expected),
        said,
    )
}

/// The bytes of a size that a metadata header spells, or what is wrong with it.
pub open spec fn meta_exact(meta: Meta, header: Seq<char>, expected: int) -> Result<
    Seq<u8>,
    Seq<char>,
> {
    match meta_bytes(meta, header) {
        Err(fault) => Err(fault),
        Ok((found, said)) => if found.len() != expected {
            Err(wrong_size_text(header, found.len() as int, expected, said))
        } else {
            Ok(found)
        },
    }
}

/// What the two metadata headers of an object claim, or the first thing that is wrong with them.
pub open spec fn claim_in(vkey: Meta, signature: Meta) -> Result<attestation::Claim, Seq<char>> {
    match meta_bytes(vkey, META_VKEY@) {
        Err(fault) => Err(fault),
        Ok((key, said)) => if key.len() == LEIOS_KEY_BYTES {
            match meta_exact(signature, META_SIGNATURE@, LEIOS_SIGNATURE_BYTES as int) {
                Err(fault) => Err(fault),
                Ok(signature) => Ok(attestation::Claim::Leios { key, signature }),
            }
        } else if key.len() != COLD_KEY_BYTES {
            Err(wrong_size_text(META_VKEY@, key.len() as int, COLD_KEY_BYTES as int, said))
        } else {
            match outside::ed25519_refusal(key) {
                Some(reason) => Err(META_VKEY@ + ": "@ + reason),
                None => match meta_exact(signature, META_SIGNATURE@, COLD_SIGNATURE_BYTES as int) {
                    Err(fault) => Err(fault),
                    Ok(signature) => Ok(attestation::Claim::Cold { key, signature }),
                },
            }
        },
    }
}

fn not_hex(header: &str, fault: &str, said: &str) -> (r: String)
    ensures
        r@ == not_hex_text(header@, fault@, said@),
{
    let mut r = String::from_str(header);
    r.append(" is not hex: ");
    r.append(fault);
    r.append(" (");
    r.append(outside::quote(said).as_str());
    r.append(")");
    r
}

fn wrong_size(header: &str, found: usize, expected: usize, said: &str) -> (r: String)
    ensures
        r@ == wrong_size_text(header@, found as int, expected as int, said@),
{
    let mut fault = text::decimal_of(found as u128);
    fault.append(" bytes, expected ");
    fault.append(text::decimal_of(expected as u128).as_str());
    not_hex(header, fault.as_str(), said)
}

fn unhex<'a>(meta: &'a Meta, header: &str) -> (r: Result<(Vec<u8>, &'a str), String>)
    ensures
        match r {
            Ok((found, said)) => meta_bytes(*meta, header@) == Ok::<
                (Seq<u8>, Seq<char>),
                Seq<char>,
            >((found@, said@)),
            Err(fault) => meta_bytes(*meta, header@) == Err::<(Seq<u8>, Seq<char>), Seq<char>>(
                fault@,
            ),
        },
{
    match meta {
        Meta::Absent => {
            let mut fault = String::from_str("no ");
            fault.append(header);
            fault.append(" on the object");
            Err(fault)
        },
        Meta::NotText => {
            let mut fault = String::from_str(header);
            fault.append(" is not text");
            Err(fault)
        },
        Meta::Said(said) => match hex::decode_bytes(said.as_str()) {
            Ok(found) => Ok((found, said.as_str())),
            Err(error) => Err(not_hex(header, error.message().as_str(), said.as_str())),
        },
    }
}

fn unhex_exact(meta: &Meta, header: &str, expected: usize) -> (r: Result<Vec<u8>, String>)
    ensures
        match r {
            Ok(found) => meta_exact(*meta, header@, expected as int) == Ok::<Seq<u8>, Seq<char>>(
                found@,
            ) && found@.len() == expected,
            Err(fault) => meta_exact(*meta, header@, expected as int) == Err::<
                Seq<u8>,
                Seq<char>,
            >(fault@),
        },
{
    match unhex(meta, header) {
        Err(fault) => Err(fault),
        Ok((found, said)) => {
            if found.len() != expected {
                Err(wrong_size(header, found.len(), expected, said))
            } else {
                Ok(found)
            }
        },
    }
}

/// The key and signature an object carries, off an answer's head. Named as the failure it is,
/// because an object this server stored has both: a download tolerates their absence and an audit
/// does not, so which it is belongs to the caller.
pub fn attestation(vkey: &Meta, signature: &Meta) -> (r: Result<Attestation, String>)
    ensures
        match r {
            Ok(attestation) => claim_in(*vkey, *signature) == Ok::<attestation::Claim, Seq<char>>(
                attestation@,
            ),
            Err(fault) => claim_in(*vkey, *signature) == Err::<attestation::Claim, Seq<char>>(
                fault@,
            ),
        },
{
    let (key, said) = match unhex(vkey, META_VKEY) {
        Ok(found) => found,
        Err(fault) => {
            return Err(fault);
        },
    };
    if key.len() == LEIOS_KEY_BYTES {
        return match unhex_exact(signature, META_SIGNATURE, LEIOS_SIGNATURE_BYTES) {
            Ok(vote) => Ok(Attestation::LeiosKey { key: LeiosPublicKey { bytes: key }, vote }),
            Err(fault) => Err(fault),
        };
    }
    if key.len() != COLD_KEY_BYTES {
        return Err(wrong_size(META_VKEY, key.len(), COLD_KEY_BYTES, said));
    }
    match VerifyingKey::from_bytes(&bytes::fixed32(key.as_slice())) {
        Err(reason) => {
            let mut fault = String::from_str(META_VKEY);
            fault.append(": ");
            fault.append(reason.as_str());
            Err(fault)
        },
        Ok(vkey) => match unhex_exact(signature, META_SIGNATURE, COLD_SIGNATURE_BYTES) {
            Ok(made) => Ok(
                Attestation::ColdKey {
                    vkey,
                    signature: Signature::from_bytes(&bytes::fixed64(made.as_slice())),
                },
            ),
            Err(fault) => Err(fault),
        },
    }
}

/// What is stored beside an object is what is read back of it: the metadata a submission is PUT
/// with claims the key and the signature it was accepted with.
pub proof fn metadata_reads_back(claim: attestation::Claim, vkey: Meta, signature: Meta)
    requires
        http::well_sized(claim),
        meta_text(signature, META_SIGNATURE@) == Ok::<Seq<char>, Seq<char>>(
            metadata_of(claim)[0].1,
        ),
        meta_text(vkey, META_VKEY@) == Ok::<Seq<char>, Seq<char>>(metadata_of(claim)[1].1),
    ensures
        claim_in(vkey, signature) == Ok::<attestation::Claim, Seq<char>>(claim),
{
    match claim {
        attestation::Claim::Cold { key, signature } => {
            hex::decode_inverts_encode(key);
            hex::decode_inverts_encode(signature);
        },
        attestation::Claim::Leios { key, signature } => {
            hex::decode_inverts_encode(key);
            hex::decode_inverts_encode(signature);
        },
    }
}

fn refuse_fetch(key: &str, reason: String) -> (r: ArchiveError)
    ensures
        r@ == (ArchiveFault::Fetch { key: key@, reason: reason@ }),
{
    ArchiveError::Fetch { key: String::from_str(key), reason }
}

/// The head of an answer to a GET: the two metadata headers, and the length it declares.
#[derive(Debug)]
pub struct Head {
    pub vkey: Meta,
    pub signature: Meta,
    pub length: Option<u64>,
}

/// Why an object's head is not one to download from, if it is not. The bucket is the source of
/// truth about what it holds, so its 404 is the answer rather than something to pre-empt with a
/// lookup. An endpoint that declares no length cannot be read off.
pub open spec fn head_fault(
    key: Seq<char>,
    base: Seq<char>,
    answer: Result<Head, Failure>,
) -> Option<ArchiveFault> {
    match answer {
        Err(failure) => if failure.status == Some(404u16) {
            Some(ArchiveFault::NoSuchObject { key })
        } else {
            Some(ArchiveFault::Fetch { key, reason: failure.reason@ })
        },
        Ok(head) => if head.length is None {
            Some(ArchiveFault::EndpointUnusable { endpoint: base })
        } else {
            None
        },
    }
}

impl S3Archive {
    /// An object opened for download. What a consumer checks the bytes with travels with them or
    /// the download is unverifiable; an object without it was not written by this server, and
    /// saying so is the client's to do, so it goes out absent rather than as a refusal.
    pub fn opened(&self, key: &str, answer: Result<Head, Failure>) -> (r: Result<
        ObjectHead,
        ArchiveError,
    >)
        ensures
            match r {
                Err(error) => head_fault(key@, self.base(), answer) == Some(error@),
                Ok(opened) => {
                    &&& head_fault(key@, self.base(), answer) is None
                    &&& opened.key@ == key@
                    &&& Some(opened.length) == answer->Ok_0.length
                    &&& http::claim_of(opened.attestation) == match claim_in(
                        answer->Ok_0.vkey,
                        answer->Ok_0.signature,
                    ) {
                        Ok(claim) => Some(claim),
                        Err(_) => None,
                    }
                },
            },
    {
        match answer {
            Err(failure) => match failure.status {
                Some(404) => Err(ArchiveError::NoSuchObject { key: String::from_str(key) }),
                _ => Err(refuse_fetch(key, failure.reason)),
            },
            Ok(head) => {
                let claimed = match attestation(&head.vkey, &head.signature) {
                    Ok(attestation) => Some(attestation),
                    Err(_) => None,
                };
                match head.length {
                    None => Err(ArchiveError::EndpointUnusable { endpoint: self.base_url.clone() }),
                    Some(length) => Ok(
                        ObjectHead { key: String::from_str(key), length, attestation: claimed },
                    ),
                }
            },
        }
    }
}

/// An object read back for an audit, given its answer's head and then its body. The metadata is
/// read before the body: an object missing a header is unverifiable however good its bytes are.
pub fn fetched(
    key: &str,
    answer: Result<Head, Failure>,
    body: Result<Vec<u8>, String>,
) -> (r: Result<FetchedObject, ArchiveError>)
    ensures
        match r {
            Ok(object) => {
                &&& key::parsed(key@) == Ok::<key::Name, Seq<char>>(object.name@)
                &&& answer is Ok
                &&& claim_in(answer->Ok_0.vkey, answer->Ok_0.signature) == Ok::<
                    attestation::Claim,
                    Seq<char>,
                >(object.attestation@)
                &&& body is Ok
                &&& object.wire_bytes@ == body->Ok_0@
            },
            Err(error) => error@ == (ArchiveFault::Fetch {
                key: key@,
                reason: fetch_fault(key@, answer, body)->0,
            }) && fetch_fault(key@, answer, body) is Some,
        },
        r is Ok <==> fetch_fault(key@, answer, body) is None,
{
    let name = match ObjectName::parse(key) {
        Ok(name) => name,
        Err(error) => {
            return Err(refuse_fetch(key, error.message()));
        },
    };
    let head = match answer {
        Ok(head) => head,
        Err(failure) => {
            return Err(refuse_fetch(key, failure.reason));
        },
    };
    let attestation = match attestation(&head.vkey, &head.signature) {
        Ok(attestation) => attestation,
        Err(fault) => {
            return Err(refuse_fetch(key, fault));
        },
    };
    match body {
        Ok(wire_bytes) => Ok(FetchedObject { name, attestation, wire_bytes }),
        Err(error) => {
            let mut reason = String::from_str("unreadable body: ");
            reason.append(error.as_str());
            Err(refuse_fetch(key, reason))
        },
    }
}

/// The first thing that keeps an object from being read back, if anything does.
pub open spec fn fetch_fault(
    key: Seq<char>,
    answer: Result<Head, Failure>,
    body: Result<Vec<u8>, String>,
) -> Option<Seq<char>> {
    match key::parsed(key) {
        Err(reason) => Some(key::key_fault_text(key, reason)),
        Ok(_) => match answer {
            Err(failure) => Some(failure.reason@),
            Ok(head) => match claim_in(head.vkey, head.signature) {
                Err(fault) => Some(fault),
                Ok(_) => match body {
                    Err(error) => Some("unreadable body: "@ + error@),
                    Ok(_) => None,
                },
            },
        },
    }
}

/// What may be tried again is, until one attempt and every retry were made: as many attempts as
/// there are retries, and one.
pub proof fn every_retry_is_made(made: int, retries: int)
    ensures
        made <= retries <==> tries_again(true, made, retries),
        !tries_again(false, made, retries),
{
}

/// A walk goes on exactly where a page hands on another token than it was asked with, and the bound
/// on pages is not reached; a page that hands on none ends it, whatever the bound.
pub proof fn a_walk_goes_on_by_its_token(
    token: Option<Seq<char>>,
    pages: int,
    max_pages: int,
    next: Seq<char>,
)
    ensures
        onward(token, pages, max_pages, Some(next)) is More <==> token != Some(next) && pages
            < max_pages,
        onward(token, pages, max_pages, Some(next)) is More || onward(
            token,
            pages,
            max_pages,
            Some(next),
        ) is Refused,
        onward(token, pages, max_pages, None) is Done,
{
}

/// A page asks for its prefix, behind its key where there is one, and for no more keys than either
/// bound allows; a walk asks for every object, behind its token where it has one.
pub proof fn a_page_asks_for_what_it_is(
    prefix: Seq<char>,
    after: Seq<char>,
    max_keys: int,
    token: Seq<char>,
)
    ensures
        paged_by(prefix, after, max_keys)[0] == ("prefix"@, prefix),
        paged_by(prefix, after, max_keys)[1] == (
            "max-keys"@,
            text::decimal(most_keys(max_keys)),
        ),
        after.len() > 0 ==> paged_by(prefix, after, max_keys).len() == 3 && paged_by(
            prefix,
            after,
            max_keys,
        )[2] == ("start-after"@, after),
        after.len() == 0 ==> paged_by(prefix, after, max_keys).len() == 2,
        most_keys(max_keys) <= max_keys,
        most_keys(max_keys) == max_keys || most_keys(max_keys) == 65535,
        most_keys(max_keys) <= 65535,
        walked_by(None) == seq![("prefix"@, KEY_PREFIX@)],
        walked_by(Some(token)) == walked_by(None) + seq![("continuation-token"@, token)],
{
    assert(walked_by(Some(token)) =~= walked_by(None) + seq![("continuation-token"@, token)]);
}

/// An object's metadata is a claim exactly where the two texts spell a key and a signature of one
/// kind; the claim is then of those bytes.
pub proof fn the_metadata_spells_the_claim(
    vkey: Meta,
    signature: Meta,
    key: Seq<u8>,
    signed: Seq<u8>,
)
    requires
        vkey matches Meta::Said(said) && said@ == hex::encoded(key),
        signature matches Meta::Said(said) && said@ == hex::encoded(signed),
    ensures
        claim_in(vkey, signature) == Ok::<attestation::Claim, Seq<char>>(
            attestation::Claim::Cold { key, signature: signed },
        ) <==> key.len() == 32 && signed.len() == 64 && outside::ed25519_refusal(key) is None,
        claim_in(vkey, signature) == Ok::<attestation::Claim, Seq<char>>(
            attestation::Claim::Leios { key, signature: signed },
        ) <==> key.len() == 96 && signed.len() == 48,
        claim_in(vkey, signature) matches Ok(claim) ==> claim == (attestation::Claim::Cold {
            key,
            signature: signed,
        }) || claim == (attestation::Claim::Leios { key, signature: signed }),
        claim_in(Meta::Absent, signature) is Err,
        claim_in(vkey, Meta::Absent) is Err,
{
    hex::decode_inverts_encode(key);
    hex::decode_inverts_encode(signed);
}

/// A head is one to download from exactly where the bucket answered and said how long the object
/// is; a 404 says that there is none, and any other failure says nothing about the object.
pub proof fn a_missing_object_is_told_apart(
    key: Seq<char>,
    base: Seq<char>,
    answer: Result<Head, Failure>,
)
    ensures
        head_fault(key, base, answer) is None <==> answer is Ok && answer->Ok_0.length is Some,
        head_fault(key, base, answer) == Some(ArchiveFault::NoSuchObject { key }) <==> answer is Err
            && answer->Err_0.status == Some(404u16),
        head_fault(key, base, answer) matches Some(fault) ==> (fault is Fetch <==> answer is Err
            && answer->Err_0.status != Some(404u16)),
{
}

/// An answer is a failure exactly where it is none of the two hundreds, and may be tried again
/// unless the request itself was refused.
pub proof fn a_failure_is_no_success(status: u16, said: &str, given: Option<Failure>)
    requires
        call_ensures(refused, (status, said), given),
    ensures
        given is None <==> status / 100 == 2,
        given matches Some(failure) ==> (failure.retryable <==> status / 100 != 4) && failure.status
            == Some(status),
{
}

/// A page goes on exactly where the listing hands on a token, and holds every key of the listing.
pub proof fn a_page_goes_on_by_its_token(
    keys: Vec<String>,
    next: Option<String>,
    given: Result<Page, ArchiveError>,
)
    requires
        call_ensures(
            page_of,
            (Ok::<(Vec<String>, Option<String>), String>((keys, next)),),
            given,
        ),
    ensures
        given matches Ok(page) && text::views(page.keys@) == text::views(keys@) && (page.truncated
            <==> next is Some),
{
}

/// An object is fetched exactly where its key names one, the bucket answered, the metadata is a
/// claim and the body came; the first of these that fails is what is said.
pub proof fn an_object_is_fetched_whole(
    key: Seq<char>,
    answer: Result<Head, Failure>,
    body: Result<Vec<u8>, String>,
)
    ensures
        fetch_fault(key, answer, body) is None <==> key::parsed(key) is Ok && answer is Ok
            && claim_in(answer->Ok_0.vkey, answer->Ok_0.signature) is Ok && body is Ok,
        key::parsed(key) matches Err(reason) ==> fetch_fault(key, answer, body) == Some(
            key::key_fault_text(key, reason),
        ),
        key::parsed(key) is Ok && answer is Err ==> fetch_fault(key, answer, body) == Some(
            answer->Err_0.reason@,
        ),
{
}

/// What is wrong with the request itself is as wrong the next time; only what is not may be tried
/// again.
pub proof fn a_bad_request_stays_bad(failure: Transport)
    ensures
        failure == Transport::BadUri || failure == Transport::Http || failure
            == Transport::HostNotFound || failure == Transport::InvalidProxyUrl || failure
            == Transport::Tls || failure == Transport::Pem || failure == Transport::Rustls
            || failure == Transport::BodyExceedsLimit ==> !is_transient(failure),
        is_transient(Transport::Other),
{
}

}
