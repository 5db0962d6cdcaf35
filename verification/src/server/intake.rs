//! The one path an upload takes. `submit` read top to bottom is the check order: the body is a
//! submission, the pool is allowlisted, the key may speak for it, the signature stands, the
//! submission was sealed near this clock, the traffic is within its budget.
//!
//! Nothing here decompresses and nothing reads a payload. The header frame is plaintext inside the
//! signed bytes, so what an object is filed under comes out of bytes the signature already
//! covered.

use vstd::prelude::*;

use crate::key;
use crate::key::{Kind, ObjectName, LAST_SECOND};
use crate::server::archive;
use crate::server::archive::{ArchiveError, StoredSubmission};
use crate::server::authority;
use crate::server::authority::{Signed, Unauthorised};
use crate::server::config::IngestConfig;
use crate::server::ratelimit;
use crate::server::ratelimit::{Charged, RateLimiter};
use crate::server::roster::Roster;
use crate::text;
use crate::wire::attestation;
use crate::wire::envelope;
use crate::wire::envelope::{Ack, ContainerError, Header};
use crate::wire::journal::INFO;
use crate::wire::moment::Moment;
use crate::wire::pool;
use crate::wire::pool::PoolId;

verus! {

/// Why the server refused. Every variant is the client's fault and its text is what the client
/// logs, so each names what to change.
#[derive(Debug)]
#[allow(inconsistent_fields)]
pub enum Rejection {
    OversizedBody { found: usize, max: u64 },
    NotASubmission(ContainerError),
    UnknownPool { pool_id: PoolId },
    RateLimited { pool_id: PoolId, max: u32, window_secs: u32 },
    /// Says nothing about this pool: every pool together filled the window.
    ServerBusy { max: u32, window_secs: u32 },
    BadSignature,
    /// The key presented does not speak for the pool claimed, whatever it signed.
    Unauthorised(Unauthorised),
    /// The pool sealed these bytes too far from this server's clock. A replay is what it refuses;
    /// a drifted clock is what an operator meets, so the refusal states both clocks.
    StaleTimestamp { sealed_at: Moment, now: Moment, max_secs: u32 },
    UnreadableHeader { reason: String },
    /// Not schema gating: a version without a kind has nothing to put in the key.
    KeylessSchema { schema_version: u32 },
}

/// What a `Rejection` is, over plain values.
pub enum Refusal {
    OversizedBody { found: int, max: int },
    NotASubmission(ContainerError),
    UnknownPool { pool: Seq<u8> },
    RateLimited { pool: Seq<u8>, max: int, window_secs: int },
    ServerBusy { max: int, window_secs: int },
    BadSignature,
    Unauthorised(authority::AuthorityFault),
    /// Each instant as the nanoseconds since 1970 and as it is shown.
    StaleTimestamp { sealed_at: (int, Seq<char>), now: (int, Seq<char>), max_secs: int },
    UnreadableHeader { reason: Seq<char> },
    KeylessSchema { schema_version: u32 },
}

impl View for Rejection {
    type V = Refusal;

    open spec fn view(&self) -> Refusal {
        match *self {
            Rejection::OversizedBody { found, max } => Refusal::OversizedBody {
                found: found as int,
                max: max as int,
            },
            Rejection::NotASubmission(error) => Refusal::NotASubmission(error),
            Rejection::UnknownPool { pool_id } => Refusal::UnknownPool { pool: pool_id@ },
            Rejection::RateLimited { pool_id, max, window_secs } => Refusal::RateLimited {
                pool: pool_id@,
                max: max as int,
                window_secs: window_secs as int,
            },
            Rejection::ServerBusy { max, window_secs } => Refusal::ServerBusy {
                max: max as int,
                window_secs: window_secs as int,
            },
            Rejection::BadSignature => Refusal::BadSignature,
            Rejection::Unauthorised(error) => Refusal::Unauthorised(error@),
            Rejection::StaleTimestamp { sealed_at, now, max_secs } => Refusal::StaleTimestamp {
                sealed_at: (sealed_at.at(), sealed_at.text()),
                now: (now.at(), now.text()),
                max_secs: max_secs as int,
            },
            Rejection::UnreadableHeader { reason } => Refusal::UnreadableHeader {
                reason: reason@,
            },
            Rejection::KeylessSchema { schema_version } => Refusal::KeylessSchema {
                schema_version,
            },
        }
    }
}

impl Refusal {
    /// What a client is told.
    pub open spec fn spelled(self) -> Seq<char> {
        match self {
            Refusal::OversizedBody { found, max } => "body is "@ + text::decimal(found)
                + " bytes, over the "@ + text::decimal(max) + " byte limit"@,
            Refusal::NotASubmission(error) => "body is not a submission: "@ + error.spelled(),
            Refusal::UnknownPool { pool } => "pool "@ + pool::bech32_of_pool(pool)
                + " is not on the allowlist"@,
            Refusal::RateLimited { pool, max, window_secs } => "pool "@ + pool::bech32_of_pool(pool)
                + " is over its limit of "@ + text::decimal(max) + " uploads per "@ + text::decimal(
                window_secs,
            ) + "s"@,
            Refusal::ServerBusy { max, window_secs } => "the server is over its limit of "@
                + text::decimal(max) + " uploads per "@ + text::decimal(window_secs) + "s"@,
            Refusal::BadSignature => "signature does not verify over the body as received"@,
            Refusal::Unauthorised(fault) => fault.spelled(),
            Refusal::StaleTimestamp { sealed_at, now, max_secs } => "sealed at "@
                + sealed_at.1 + ", and this server's clock reads "@ + now.1 + ": over the "@ + text::decimal(
                max_secs,
            ) + "s either way that a submission may be sealed from"@,
            Refusal::UnreadableHeader { reason } => "header frame does not read: "@ + reason,
            Refusal::KeylessSchema { schema_version } => "schema v"@ + text::decimal(
                schema_version as int,
            ) + " names no <metrics|logs> segment, so no key can be formed"@,
        }
    }
}

impl Rejection {
    /// What a client is told.
    pub fn message(&self) -> (r: String)
        ensures
            r@ == self@.spelled(),
    {
        match self {
            Rejection::OversizedBody { found, max } => {
                let mut r = String::from_str("body is ");
                r.append(text::decimal_of(*found as u128).as_str());
                r.append(" bytes, over the ");
                r.append(text::decimal_of(*max as u128).as_str());
                r.append(" byte limit");
                r
            },
            Rejection::NotASubmission(error) => {
                let mut r = String::from_str("body is not a submission: ");
                r.append(error.message().as_str());
                r
            },
            Rejection::UnknownPool { pool_id } => {
                let mut r = String::from_str("pool ");
                r.append(pool_id.to_bech32().as_str());
                r.append(" is not on the allowlist");
                r
            },
            Rejection::RateLimited { pool_id, max, window_secs } => {
                let mut r = String::from_str("pool ");
                r.append(pool_id.to_bech32().as_str());
                r.append(" is over its limit of ");
                r.append(text::decimal_of(*max as u128).as_str());
                r.append(" uploads per ");
                r.append(text::decimal_of(*window_secs as u128).as_str());
                r.append("s");
                r
            },
            Rejection::ServerBusy { max, window_secs } => {
                let mut r = String::from_str("the server is over its limit of ");
                r.append(text::decimal_of(*max as u128).as_str());
                r.append(" uploads per ");
                r.append(text::decimal_of(*window_secs as u128).as_str());
                r.append("s");
                r
            },
            Rejection::BadSignature => String::from_str(
                "signature does not verify over the body as received",
            ),
            Rejection::Unauthorised(error) => error.message(),
            Rejection::StaleTimestamp { sealed_at, now, max_secs } => {
                let mut r = String::from_str("sealed at ");
                r.append(sealed_at.shown());
                r.append(", and this server's clock reads ");
                r.append(now.shown());
                r.append(": over the ");
                r.append(text::decimal_of(*max_secs as u128).as_str());
                r.append("s either way that a submission may be sealed from");
                r
            },
            Rejection::UnreadableHeader { reason } => {
                let mut r = String::from_str("header frame does not read: ");
                r.append(reason.as_str());
                r
            },
            Rejection::KeylessSchema { schema_version } => {
                let mut r = String::from_str("schema v");
                r.append(text::decimal_of(*schema_version as u128).as_str());
                r.append(" names no <metrics|logs> segment, so no key can be formed");
                r
            },
        }
    }
}

/// A submission the server could not process. `Rejected` is the client's problem and permanent;
/// `Archive` is the server's and worth a retry.
#[derive(Debug)]
pub enum IngestError {
    Rejected(Rejection),
    Archive(ArchiveError),
}

impl IngestError {
    /// What is said of the submission.
    pub open spec fn spelled(self) -> Seq<char> {
        match self {
            IngestError::Rejected(rejection) => rejection@.spelled(),
            IngestError::Archive(error) => "archive unavailable: "@ + error@.spelled(),
        }
    }

    /// What is said of the submission.
    pub fn message(&self) -> (r: String)
        ensures
            r@ == self.spelled(),
    {
        match self {
            IngestError::Rejected(rejection) => rejection.message(),
            IngestError::Archive(error) => {
                let mut r = String::from_str("archive unavailable: ");
                r.append(error.message().as_str());
                r
            },
        }
    }
}

/// What the intake checks an upload against, over plain values.
pub struct Limits {
    pub allowlist: Set<Seq<u8>>,
    pub max_body_bytes: int,
    pub max_header_bytes: int,
    pub max_skew_secs: int,
    pub uploads: int,
    pub uploads_total: int,
    pub window_secs: int,
    pub roster: Option<Map<Seq<u8>, Seq<Seq<u8>>>>,
}

/// An upload, over plain values.
pub struct Upload {
    pub claim: attestation::Claim,
    pub pool: Seq<u8>,
    pub wire: Seq<u8>,
    /// What a Leios verifier answered, where a Leios key signed.
    pub leios_stands: bool,
}

/// What a header says, over plain values.
pub struct Said {
    pub schema_version: u32,
    pub agent: Seq<char>,
    /// When it was sealed, in nanoseconds since 1970, and as shown.
    pub sealed_at: int,
    pub sealed_text: Seq<char>,
}

impl Limits {
    /// What refuses an upload before its header is read: the first of these that does.
    pub open spec fn screens(self, upload: Upload) -> Option<Refusal> {
        if upload.wire.len() > self.max_body_bytes {
            Some(
                Refusal::OversizedBody {
                    found: upload.wire.len() as int,
                    max: self.max_body_bytes,
                },
            )
        } else {
            match envelope::taken_apart(upload.wire, self.max_header_bytes) {
                Err(error) => Some(Refusal::NotASubmission(error)),
                Ok(_) => if !self.allowlist.contains(upload.pool) {
                    Some(Refusal::UnknownPool { pool: upload.pool })
                } else {
                    match authority::authority_fault(upload.claim, upload.pool, self.roster) {
                        Some(fault) => Some(Refusal::Unauthorised(fault)),
                        None => if !upload.claim.stands(upload.wire, upload.leios_stands) {
                            Some(Refusal::BadSignature)
                        } else {
                            None
                        },
                    }
                },
            }
        }
    }

    /// What refuses an upload before it is charged.
    pub open spec fn refuses(
        self,
        upload: Upload,
        header: Result<Said, Seq<char>>,
        now: int,
        now_text: Seq<char>,
    ) -> Option<Refusal> {
        match self.screens(upload) {
            Some(refusal) => Some(refusal),
            None => match header {
                Err(reason) => Some(Refusal::UnreadableHeader { reason }),
                Ok(said) => if !fresh(now, said.sealed_at, self.max_skew_secs) {
                    Some(
                        Refusal::StaleTimestamp {
                            sealed_at: (said.sealed_at, said.sealed_text),
                            now: (now, now_text),
                            max_secs: self.max_skew_secs,
                        },
                    )
                } else {
                    None
                },
            },
        }
    }

    /// What an upload comes to: what it is filed as, or the first thing that refuses it.
    pub open spec fn judges(
        self,
        budgets: ratelimit::Budgets,
        upload: Upload,
        header: Result<Said, Seq<char>>,
        now: int,
        now_text: Seq<char>,
    ) -> Result<(Seq<char>, Kind), Refusal> {
        match self.refuses(upload, header, now, now_text) {
            Some(refusal) => Err(refusal),
            None => match budgets.answer(upload.pool, now) {
                Charged::PoolIsOver => Err(
                    Refusal::RateLimited {
                        pool: upload.pool,
                        max: self.uploads,
                        window_secs: self.window_secs,
                    },
                ),
                Charged::ServerIsOver => Err(
                    Refusal::ServerBusy { max: self.uploads_total, window_secs: self.window_secs },
                ),
                Charged::Allowed => {
                    let said = header->Ok_0;
                    match key::kind_of_version(said.schema_version) {
                        None => Err(
                            Refusal::KeylessSchema { schema_version: said.schema_version },
                        ),
                        Some(kind) => Ok((said.agent, kind)),
                    }
                },
            },
        }
    }
}

/// Whether two instants are within so many seconds of each other, either way.
pub open spec fn fresh(now: int, sealed_at: int, max_secs: int) -> bool {
    -(max_secs * 1_000_000_000) <= now - sealed_at <= max_secs * 1_000_000_000
}

/// What a header that was read, or was not, says.
pub open spec fn said_of(header: Result<Header, String>) -> Result<Said, Seq<char>> {
    match header {
        Ok(header) => Ok(
            Said {
                schema_version: header.schema_version,
                agent: header.provenance.agent_id@,
                sealed_at: header.timestamp.at(),
                sealed_text: header.timestamp.text(),
            },
        ),
        Err(reason) => Err(reason@),
    }
}

/// What a signed upload is.
pub open spec fn upload_of(signed: Signed, leios_stands: bool) -> Upload {
    Upload {
        claim: signed.attestation@,
        pool: signed.pool_id@,
        wire: signed.wire_bytes@,
        leios_stands,
    }
}

/// Everything between a received upload and what it is stored as. The limiter is the server's only
/// mutable state.
#[derive(Debug)]
pub struct Intake {
    pub config: IngestConfig,
    pub limiter: RateLimiter,
    /// Absent where this server was given no roster, which is what makes a Leios-key submission
    /// refusable with a reason.
    pub roster: Option<Roster>,
}

impl Intake {
    /// What this checks an upload against.
    pub open spec fn limits(self) -> Limits {
        Limits {
            allowlist: self.config.allowlist@.dom(),
            max_body_bytes: self.config.max_body_bytes@,
            max_header_bytes: self.config.max_header_bytes@,
            max_skew_secs: self.config.max_timestamp_skew_secs@,
            uploads: self.config.rate_limit_uploads@,
            uploads_total: self.config.rate_limit_uploads_total@,
            window_secs: self.config.rate_limit_window_secs@,
            roster: match self.roster {
                Some(roster) => Some(roster.registered()),
                None => None,
            },
        }
    }

    /// An intake with nothing charged yet.
    pub fn new(config: IngestConfig, roster: Option<Roster>) -> (r: Intake)
        ensures
            r.config == config,
            r.roster == roster,
            r.limiter@ == (ratelimit::Budgets {
                max_per_pool: config.rate_limit_uploads@,
                max_total: config.rate_limit_uploads_total@,
                width: config.rate_limit_window_secs@ * 1_000_000_000,
                pools: Map::empty(),
                total: ratelimit::Window { started_at: 0, used: 0 },
            }),
    {
        let limiter = RateLimiter::new(
            config.rate_limit_uploads,
            config.rate_limit_uploads_total,
            config.rate_limit_window_secs,
        );
        Intake { config, limiter, roster }
    }

    /// The body cap, so the transport refuses at the number this checks against.
    pub fn max_body_bytes(&self) -> (r: u64)
        ensures
            r == self.limits().max_body_bytes,
    {
        self.config.max_body_bytes.get()
    }

    /// What refuses an upload before its header is read. The header frame of one that stands comes
    /// back to be read.
    pub fn screen(&self, signed: &Signed<'_>, leios_stands: bool) -> (r: Result<Vec<u8>, Rejection>)
        ensures
            match r {
                Ok(header) => self.limits().screens(upload_of(*signed, leios_stands)) is None && (
                envelope::taken_apart(
                    signed.wire_bytes@,
                    self.limits().max_header_bytes,
                ) matches Ok((frame, _)) && frame == header@),
                Err(rejection) => self.limits().screens(upload_of(*signed, leios_stands)) == Some(
                    rejection@,
                ),
            },
    {
        let max: u64 = self.config.max_body_bytes.get();
        if signed.wire_bytes.len() as u64 > max {
            return Err(Rejection::OversizedBody { found: signed.wire_bytes.len(), max });
        }
        // Before the allowlist, the limiter and the key: whether these bytes are a submission at
        // all costs eight bytes to answer, and every check after this one costs more.
        let header = match envelope::split(
            signed.wire_bytes,
            self.config.max_header_bytes.get(),
        ) {
            Ok((header, _)) => header,
            Err(error) => {
                return Err(Rejection::NotASubmission(error));
            },
        };
        if self.config.allowlist.get(signed.pool_id.hash.as_slice()).is_none() {
            return Err(Rejection::UnknownPool { pool_id: signed.pool_id });
        }
        // Before the signature, because it is a lookup against a signature's pairing and answers
        // the same question earlier.
        let roster = match &self.roster {
            Some(roster) => Some(roster),
            None => None,
        };
        match signed.authorised(roster) {
            Ok(()) => {},
            Err(error) => {
                return Err(Rejection::Unauthorised(error));
            },
        }
        // Before the limiter rather than after it. A verification key is public, so anyone can
        // present an allowlisted pool's and spend that pool's window on bodies it never signed.
        // Only what the signature has proved is charged.
        if !signed.verifies(leios_stands) {
            return Err(Rejection::BadSignature);
        }
        Ok(header)
    }

    /// Run one upload through the chain. `header` is what reading its header frame came to and
    /// `now` is the server clock, taken once so every check in one upload judges the same instant
    /// and the object is stamped with what the limiter charged.
    pub fn submit<'a>(
        &mut self,
        signed: &Signed<'a>,
        leios_stands: bool,
        header: Result<Header, String>,
        now: &Moment,
    ) -> (r: Result<StoredSubmission<'a>, Rejection>)
        requires
            0 <= now.at(),
            now.at() / 1_000_000_000 <= LAST_SECOND,
        ensures
            final(self).config == old(self).config,
            final(self).roster == old(self).roster,
            final(self).limiter@ == (if old(self).limits().refuses(
                upload_of(*signed, leios_stands),
                said_of(header),
                now.at(),
                now.text(),
            ) is Some {
                old(self).limiter@
            } else {
                old(self).limiter@.charged(signed.pool_id@, now.at())
            }),
            ({
                let judged = old(self).limits().judges(
                    old(self).limiter@,
                    upload_of(*signed, leios_stands),
                    said_of(header),
                    now.at(),
                    now.text(),
                );
                match r {
                    Ok(stored) => {
                        &&& judged == Ok::<(Seq<char>, Kind), Refusal>(
                            (stored.name@.agent, stored.name@.kind),
                        )
                        &&& stored.name@.valid()
                        &&& stored.name@.pool == signed.pool_id@
                        &&& crate::outside::v7_millis(stored.name.id) == now.at() / 1_000_000
                        &&& stored.attestation@ == signed.attestation@
                        &&& stored.wire_bytes@ == signed.wire_bytes@
                    },
                    Err(rejection) => judged == Err::<(Seq<char>, Kind), Refusal>(rejection@),
                }
            }),
            r is Ok ==> header is Ok && apart(now.at(), header->Ok_0.timestamp.at())
                <= old(self).config.max_timestamp_skew_secs@ * 1_000_000_000,
            r is Err && r->Err_0@ is StaleTimestamp ==> header is Ok && apart(
                now.at(),
                header->Ok_0.timestamp.at(),
            ) > old(self).config.max_timestamp_skew_secs@ * 1_000_000_000,
    {
        match self.screen(signed, leios_stands) {
            Ok(_) => {},
            Err(rejection) => {
                return Err(rejection);
            },
        }
        let header = match header {
            Ok(header) => header,
            Err(reason) => {
                return Err(Rejection::UnreadableHeader { reason });
            },
        };
        let max_secs: u32 = self.config.max_timestamp_skew_secs.get();
        let skew: i128 = now.nanos() - header.timestamp.nanos();
        let bound: i128 = max_secs as i128 * 1_000_000_000;
        if skew > bound || skew < -bound {
            return Err(
                Rejection::StaleTimestamp {
                    sealed_at: header.timestamp.clone(),
                    now: now.clone(),
                    max_secs,
                },
            );
        }
        match self.limiter.charge(signed.pool_id, now) {
            Charged::Allowed => {},
            Charged::PoolIsOver => {
                return Err(
                    Rejection::RateLimited {
                        pool_id: signed.pool_id,
                        max: self.config.rate_limit_uploads.get(),
                        window_secs: self.config.rate_limit_window_secs.get(),
                    },
                );
            },
            Charged::ServerIsOver => {
                return Err(
                    Rejection::ServerBusy {
                        max: self.config.rate_limit_uploads_total.get(),
                        window_secs: self.config.rate_limit_window_secs.get(),
                    },
                );
            },
        }
        accept(signed, header, now)
    }
}

/// The half behind the signature: the submission is the pool's, so what it says about itself is
/// what the object is filed under. The pool comes from the attribution and the agent from the
/// header.
fn accept<'a>(signed: &Signed<'a>, header: Header, now: &Moment) -> (r: Result<
    StoredSubmission<'a>,
    Rejection,
>)
    requires
        0 <= now.at(),
        now.at() / 1_000_000_000 <= LAST_SECOND,
    ensures
        match (r, key::kind_of_version(header.schema_version)) {
            (Ok(stored), Some(kind)) => {
                &&& stored.name@.valid()
                &&& stored.name@.pool == signed.pool_id@
                &&& stored.name@.agent == header.provenance.agent_id@
                &&& stored.name@.kind == kind
                &&& crate::outside::v7_millis(stored.name.id) == now.at() / 1_000_000
                &&& stored.attestation@ == signed.attestation@
                &&& stored.wire_bytes@ == signed.wire_bytes@
            },
            (Err(rejection), None) => rejection@ == (Refusal::KeylessSchema {
                schema_version: header.schema_version,
            }),
            _ => false,
        },
{
    let kind = match Kind::of(header.schema_version) {
        Some(kind) => kind,
        None => {
            return Err(Rejection::KeylessSchema { schema_version: header.schema_version });
        },
    };
    let nanos: i128 = now.nanos();
    let seconds: u64 = (nanos / 1_000_000_000) as u64;
    let rest: u32 = (nanos % 1_000_000_000) as u32;
    Ok(
        StoredSubmission {
            name: ObjectName::stamped(
                seconds,
                rest,
                signed.pool_id,
                header.provenance.agent_id,
                kind,
            ),
            attestation: signed.attestation.clone(),
            wire_bytes: signed.wire_bytes,
        },
    )
}

/// The line that says which object an accepted submission became. The key carries the pool, the
/// agent and the kind, so one line answers whose it was, which of their agents sent it and what it
/// held.
pub open spec fn accepted_line(key: Seq<char>, bytes: int) -> Seq<char> {
    INFO@ + "accepted "@ + key + ", "@ + text::decimal(bytes) + " bytes"@
}

/// What storing a submission comes to: the acknowledgement and the line for the journal, or that
/// the archive is not available.
pub fn stored(
    submission: &StoredSubmission<'_>,
    outcome: Result<(), ArchiveError>,
    latest_version: &str,
) -> (r: Result<(Ack, String), IngestError>)
    requires
        key::stampable(submission.name.id),
    ensures
        match outcome {
            Ok(()) => r matches Ok((ack, line)) && ack.latest_version@ == latest_version@ && line@
                == accepted_line(submission.name@.key(), submission.wire_bytes@.len() as int),
            Err(error) => r == Err::<(Ack, String), IngestError>(IngestError::Archive(error)),
        },
{
    match outcome {
        Err(error) => Err(IngestError::Archive(error)),
        Ok(()) => {
            let mut line = String::from_str(INFO);
            line.append("accepted ");
            line.append(submission.object_key().as_str());
            line.append(", ");
            line.append(text::decimal_of(submission.wire_bytes.len() as u128).as_str());
            line.append(" bytes");
            Ok((Ack { latest_version: String::from_str(latest_version) }, line))
        },
    }
}

/// Only what the signature has proved is charged: an upload whose signature does not stand leaves
/// every budget as it was.
pub proof fn unsigned_upload_charges_nothing(
    limits: Limits,
    upload: Upload,
    header: Result<Said, Seq<char>>,
    now: int,
    now_text: Seq<char>,
)
    requires
        !upload.claim.stands(upload.wire, upload.leios_stands),
    ensures
        limits.refuses(upload, header, now, now_text) is Some,
{
}

/// A submission that was sealed too far from this clock charges nothing either, so a captured one
/// cannot be replayed to spend the window of the pool it was captured from.
pub proof fn stale_upload_charges_nothing(
    limits: Limits,
    upload: Upload,
    said: Said,
    now: int,
    now_text: Seq<char>,
)
    requires
        !fresh(now, said.sealed_at, limits.max_skew_secs),
    ensures
        limits.refuses(upload, Ok(said), now, now_text) is Some,
{
}

/// Nothing is filed that is not allowlisted, authorised, signed, fresh and within its budget.
pub proof fn filed_means_every_check_passed(
    limits: Limits,
    budgets: ratelimit::Budgets,
    upload: Upload,
    header: Result<Said, Seq<char>>,
    now: int,
    now_text: Seq<char>,
)
    requires
        limits.judges(budgets, upload, header, now, now_text) is Ok,
    ensures
        upload.wire.len() <= limits.max_body_bytes,
        envelope::taken_apart(upload.wire, limits.max_header_bytes) is Ok,
        limits.allowlist.contains(upload.pool),
        authority::authority_fault(upload.claim, upload.pool, limits.roster) is None,
        upload.claim.stands(upload.wire, upload.leios_stands),
        header matches Ok(said) && fresh(now, said.sealed_at, limits.max_skew_secs)
            && key::kind_of_version(said.schema_version) is Some,
        budgets.answer(upload.pool, now) == Charged::Allowed,
{
}

/// How far two instants lie from each other.
pub open spec fn apart(a: int, b: int) -> int {
    if a >= b {
        a - b
    } else {
        b - a
    }
}

/// Only the distance between the clock and the seal makes an upload stale, whichever of the two is
/// ahead: one that passes every earlier check is refused exactly where they lie further apart than
/// the bound, and the bound itself is still within it.
pub proof fn staleness_is_distance(
    limits: Limits,
    upload: Upload,
    said: Said,
    now: int,
    now_text: Seq<char>,
)
    requires
        limits.screens(upload) is None,
    ensures
        limits.refuses(upload, Ok(said), now, now_text) is None <==> apart(now, said.sealed_at)
            <= limits.max_skew_secs * 1_000_000_000,
        limits.refuses(upload, Ok(said), now, now_text) is Some ==> limits.refuses(
            upload,
            Ok(said),
            now,
            now_text,
        )->0 is StaleTimestamp,
{
}

/// Freshness does not tell the clock from the seal, nor one instant from another: it is the same
/// with the two exchanged and with both moved by as much, and a wider bound takes no less.
pub proof fn freshness_is_symmetric(a: int, b: int, by: int, secs: int, more: int)
    requires
        secs <= more,
    ensures
        fresh(a, b, secs) == fresh(b, a, secs),
        fresh(a, b, secs) == fresh(a + by, b + by, secs),
        fresh(a, b, secs) ==> fresh(a, b, more),
        0 <= secs ==> fresh(a, a, secs) && fresh(a, a + secs * 1_000_000_000, secs) && fresh(
            a + secs * 1_000_000_000,
            a,
            secs,
        ),
        !fresh(a, a + secs * 1_000_000_000 + 1, secs),
        !fresh(a + secs * 1_000_000_000 + 1, a, secs),
{
}

/// What is in order is filed: within the size bound, a frame, from an allowed pool, under a key
/// that may speak for it, rightly signed, sealed near enough to now, inside the budgets and of a
/// schema that a key names. It is filed under the agent and the kind that its own header says.
pub proof fn what_is_in_order_is_filed(
    limits: Limits,
    budgets: ratelimit::Budgets,
    upload: Upload,
    said: Said,
    kind: Kind,
    now: int,
    now_text: Seq<char>,
)
    requires
        upload.wire.len() <= limits.max_body_bytes,
        envelope::taken_apart(upload.wire, limits.max_header_bytes) is Ok,
        limits.allowlist.contains(upload.pool),
        upload.claim matches attestation::Claim::Leios { key, .. } ==> limits.roster is Some
            && limits.roster->0.contains_key(upload.pool) && limits.roster->0[upload.pool].contains(
            key,
        ),
        upload.claim.stands(upload.wire, upload.leios_stands),
        apart(now, said.sealed_at) <= limits.max_skew_secs * 1_000_000_000,
        budgets.answer(upload.pool, now) == Charged::Allowed,
        said.schema_version == 1 && kind == Kind::Metrics || said.schema_version == 2 && kind
            == Kind::Logs,
    ensures
        limits.judges(budgets, upload, Ok(said), now, now_text) == Ok::<
            (Seq<char>, Kind),
            Refusal,
        >((said.agent, kind)),
{
}

/// A refusal says what is wrong, and the first thing that is wrong decides which it is.
pub proof fn the_first_fault_is_the_refusal(
    limits: Limits,
    budgets: ratelimit::Budgets,
    upload: Upload,
    header: Result<Said, Seq<char>>,
    now: int,
    now_text: Seq<char>,
)
    ensures
        ({
            let given = limits.judges(budgets, upload, header, now, now_text);
            let over = upload.wire.len() > limits.max_body_bytes;
            let framed = envelope::taken_apart(upload.wire, limits.max_header_bytes);
            let known = limits.allowlist.contains(upload.pool);
            let listed = upload.claim is Leios ==> limits.roster is Some
                && limits.roster->0.contains_key(upload.pool)
                && limits.roster->0[upload.pool].contains(upload.claim->Leios_key);
            let signed = upload.claim.stands(upload.wire, upload.leios_stands);
            let near = header is Ok && apart(now, header->Ok_0.sealed_at) <= limits.max_skew_secs
                * 1_000_000_000;
            let charge = budgets.answer(upload.pool, now);
            &&& over <==> given == Err::<(Seq<char>, Kind), Refusal>(
                Refusal::OversizedBody {
                    found: upload.wire.len() as int,
                    max: limits.max_body_bytes,
                },
            )
            &&& !over && framed is Err <==> given is Err && given->Err_0 is NotASubmission
            &&& !over && framed is Err ==> given == Err::<(Seq<char>, Kind), Refusal>(
                Refusal::NotASubmission(framed->Err_0),
            )
            &&& !over && framed is Ok && !known <==> given == Err::<(Seq<char>, Kind), Refusal>(
                Refusal::UnknownPool { pool: upload.pool },
            )
            &&& !over && framed is Ok && known && !listed <==> given is Err
                && given->Err_0 is Unauthorised
            &&& !over && framed is Ok && known && listed && !signed <==> given == Err::<
                (Seq<char>, Kind),
                Refusal,
            >(Refusal::BadSignature)
            &&& !over && framed is Ok && known && listed && signed ==> {
                &&& header is Err <==> given is Err && given->Err_0 is UnreadableHeader
                &&& header is Err ==> given == Err::<(Seq<char>, Kind), Refusal>(
                    Refusal::UnreadableHeader { reason: header->Err_0 },
                )
                &&& header is Ok && !near <==> given is Err && given->Err_0 is StaleTimestamp
                &&& header is Ok && !near ==> given == Err::<(Seq<char>, Kind), Refusal>(
                    Refusal::StaleTimestamp {
                        sealed_at: (header->Ok_0.sealed_at, header->Ok_0.sealed_text),
                        now: (now, now_text),
                        max_secs: limits.max_skew_secs,
                    },
                )
                &&& near && charge == Charged::PoolIsOver <==> given == Err::<
                    (Seq<char>, Kind),
                    Refusal,
                >(
                    Refusal::RateLimited {
                        pool: upload.pool,
                        max: limits.uploads,
                        window_secs: limits.window_secs,
                    },
                )
                &&& near && charge == Charged::ServerIsOver <==> given == Err::<
                    (Seq<char>, Kind),
                    Refusal,
                >(
                    Refusal::ServerBusy {
                        max: limits.uploads_total,
                        window_secs: limits.window_secs,
                    },
                )
                &&& near && charge == Charged::Allowed && header->Ok_0.schema_version != 1
                    && header->Ok_0.schema_version != 2 <==> given is Err
                    && given->Err_0 is KeylessSchema
            }
        }),
{
}

/// Each limit is the one that was configured for it.
pub proof fn the_limits_are_the_configured(intake: Intake)
    ensures
        intake.limits().max_body_bytes == intake.config.max_body_bytes@,
        intake.limits().max_header_bytes == intake.config.max_header_bytes@,
        intake.limits().max_skew_secs == intake.config.max_timestamp_skew_secs@,
        intake.limits().uploads == intake.config.rate_limit_uploads@,
        intake.limits().uploads_total == intake.config.rate_limit_uploads_total@,
        intake.limits().window_secs == intake.config.rate_limit_window_secs@,
        intake.limits().allowlist == intake.config.allowlist@.dom(),
        intake.limits().roster is Some <==> intake.roster is Some,
        intake.roster matches Some(roster) ==> intake.limits().roster == Some(roster.registered()),
{
}

/// An upload is judged by what was signed and by what its own header says: nothing else is put in
/// their place.
pub proof fn an_upload_is_judged_by_its_own(signed: Signed, leios_stands: bool, header: Header)
    ensures
        upload_of(signed, leios_stands).claim == signed.attestation@,
        upload_of(signed, leios_stands).pool == signed.pool_id@,
        upload_of(signed, leios_stands).wire == signed.wire_bytes@,
        upload_of(signed, leios_stands).leios_stands == leios_stands,
        said_of(Ok(header)) matches Ok(said) && said.schema_version == header.schema_version
            && said.agent == header.provenance.agent_id@ && said.sealed_at == header.timestamp.at()
            && said.sealed_text == header.timestamp.text(),
{
}

}
