//! Re-verify a stored object from nothing but the object: its key, its metadata and its bytes.
//! Nothing here decompresses either. What ingest filed an object under is what its signature and
//! its header frame say, so that is what re-deriving the key checks.

use vstd::prelude::*;

use crate::key;
use crate::key::{Kind, ObjectName};
use crate::server::archive::FetchedObject;
use crate::server::authority;
use crate::server::intake;
use crate::text;
use crate::wire::attestation;
use crate::wire::envelope::Header;

verus! {

/// Why a stored object is not what it is filed as.
#[derive(Debug)]
pub enum VerifyError {
    BadSignature { key: String },
    UnreadableHeader { key: String, reason: String },
    UnnameableKind { key: String, schema_version: u32 },
    Misfiled { key: String, expected: String },
}

/// What a `VerifyError` is, over plain values.
pub enum VerifyFault {
    BadSignature { key: Seq<char> },
    UnreadableHeader { key: Seq<char>, reason: Seq<char> },
    UnnameableKind { key: Seq<char>, schema_version: u32 },
    Misfiled { key: Seq<char>, expected: Seq<char> },
}

impl View for VerifyError {
    type V = VerifyFault;

    open spec fn view(&self) -> VerifyFault {
        match *self {
            VerifyError::BadSignature { key } => VerifyFault::BadSignature { key: key@ },
            VerifyError::UnreadableHeader { key, reason } => VerifyFault::UnreadableHeader {
                key: key@,
                reason: reason@,
            },
            VerifyError::UnnameableKind { key, schema_version } => VerifyFault::UnnameableKind {
                key: key@,
                schema_version,
            },
            VerifyError::Misfiled { key, expected } => VerifyFault::Misfiled {
                key: key@,
                expected: expected@,
            },
        }
    }
}

impl VerifyFault {
    /// What an operator reads.
    pub open spec fn spelled(self) -> Seq<char> {
        match self {
            VerifyFault::BadSignature { key } => key
                + ": the signature does not verify over the stored bytes"@,
            VerifyFault::UnreadableHeader { key, reason } => key
                + ": the header frame does not read: "@ + reason,
            VerifyFault::UnnameableKind { key, schema_version } => key
                + ": nothing files a schema v"@ + text::decimal(schema_version as int) + " batch"@,
            VerifyFault::Misfiled { key, expected } => key + ": the batch inside belongs at "@
                + expected,
        }
    }
}

impl VerifyError {
    /// What an operator reads.
    pub fn message(&self) -> (r: String)
        ensures
            r@ == self@.spelled(),
    {
        match self {
            VerifyError::BadSignature { key } => {
                let mut r = key.clone();
                r.append(": the signature does not verify over the stored bytes");
                r
            },
            VerifyError::UnreadableHeader { key, reason } => {
                let mut r = key.clone();
                r.append(": the header frame does not read: ");
                r.append(reason.as_str());
                r
            },
            VerifyError::UnnameableKind { key, schema_version } => {
                let mut r = key.clone();
                r.append(": nothing files a schema v");
                r.append(text::decimal_of(*schema_version as u128).as_str());
                r.append(" batch");
                r
            },
            VerifyError::Misfiled { key, expected } => {
                let mut r = key.clone();
                r.append(": the batch inside belongs at ");
                r.append(expected.as_str());
                r
            },
        }
    }
}

/// What is wrong with a stored object, if anything. The pool is the one the stored key names by
/// itself, and only for a key that names none the one it is filed under.
pub open spec fn fault_of(
    name: key::Name,
    claim: attestation::Claim,
    wire: Seq<u8>,
    leios_stands: bool,
    header: Result<intake::Said, Seq<char>>,
) -> Option<VerifyFault> {
    let key = name.key();
    if !claim.stands(wire, leios_stands) {
        Some(VerifyFault::BadSignature { key })
    } else {
        match header {
            Err(reason) => Some(VerifyFault::UnreadableHeader { key, reason }),
            Ok(said) => match key::kind_of_version(said.schema_version) {
                None => Some(
                    VerifyFault::UnnameableKind { key, schema_version: said.schema_version },
                ),
                Some(kind) => {
                    let expected = (key::Name {
                        id: name.id,
                        pool: match claim.names() {
                            Some(signer) => signer,
                            None => name.pool,
                        },
                        agent: said.agent,
                        kind,
                    }).key();
                    if expected != key {
                        Some(VerifyFault::Misfiled { key, expected })
                    } else {
                        None
                    }
                },
            },
        }
    }
}

/// Verify one stored object. `header` is what reading its header frame came to, and comes back
/// where the object is what it is filed as: signed by the pool in its name wherever the key names
/// one, and by the agent and of the kind in its name.
pub fn verify(object: &FetchedObject, leios_stands: bool, header: Result<Header, String>) -> (r:
    Result<Header, VerifyError>)
    requires
        key::stampable(object.name.id),
    ensures
        ({
            let fault = fault_of(
                object.name@,
                object.attestation@,
                object.wire_bytes@,
                leios_stands,
                intake::said_of(header),
            );
            match r {
                Ok(found) => {
                    &&& fault is None
                    &&& header == Ok::<Header, String>(found)
                    &&& object.attestation@.names() matches Some(signer) ==> signer
                        == object.name@.pool
                    &&& found.provenance.agent_id@ == object.name@.agent
                    &&& key::kind_of_version(found.schema_version) == Some(object.name@.kind)
                },
                Err(error) => fault == Some(error@),
            }
        }),
{
    let key = object.name.to_key();
    if !object.attestation.verifies(object.wire_bytes.as_slice(), leios_stands) {
        return Err(VerifyError::BadSignature { key });
    }
    let header = match header {
        Ok(header) => header,
        Err(reason) => {
            return Err(VerifyError::UnreadableHeader { key, reason });
        },
    };
    let kind = match Kind::of(header.schema_version) {
        Some(kind) => kind,
        None => {
            return Err(
                VerifyError::UnnameableKind { key, schema_version: header.schema_version },
            );
        },
    };
    // The key is what the archive was handed, so re-deriving it checks the pool, the agent and the
    // kind it was filed under in one go. The id is the key's own, being the one thing about an
    // object that is not inside it.
    let pool_id = match object.attestation.attributes() {
        Some(signer) => signer,
        None => object.name.pool_id,
    };
    let expected = (ObjectName {
        id: object.name.id,
        pool_id,
        agent_id: header.provenance.agent_id.clone(),
        kind,
    }).to_key();
    if !text::same(expected.as_str(), key.as_str()) {
        return Err(VerifyError::Misfiled { key, expected });
    }
    Ok(header)
}

/// What ingest files, an audit verifies: an upload that was judged fit to be filed, attributed to
/// the pool its key names where it names one, re-verifies from what was stored.
pub proof fn what_is_filed_verifies(
    limits: intake::Limits,
    budgets: crate::server::ratelimit::Budgets,
    upload: intake::Upload,
    claimed: Option<Seq<u8>>,
    header: Result<intake::Said, Seq<char>>,
    now: int,
    now_text: Seq<char>,
    id: u128,
)
    requires
        authority::attributed(upload.claim, claimed) == Ok::<
            Seq<u8>,
            authority::AttributionFault,
        >(upload.pool),
        limits.judges(budgets, upload, header, now, now_text) is Ok,
    ensures
        limits.judges(budgets, upload, header, now, now_text) matches Ok((agent, kind))
            && fault_of(
            key::Name { id, pool: upload.pool, agent, kind },
            upload.claim,
            upload.wire,
            upload.leios_stands,
            header,
        ) is None,
{
}

/// What re-verifying a whole archive found.
#[derive(Debug)]
pub struct Audit {
    pub verified: usize,
    /// Objects verified in every part but the pool they are filed under, which the key that signed
    /// them cannot re-derive.
    pub unattributed: usize,
    pub failures: Vec<AuditFailure>,
}

/// Why an object is not counted as verified. The two are different findings: one that failed
/// verification is evidence about the corpus, one that could not be read is evidence about
/// nothing.
#[derive(Debug)]
pub enum AuditFailure {
    Unreadable { key: String, reason: String },
    Failed(VerifyError),
}

/// A listing that could not be read, which stops an audit: a short listing would otherwise report
/// a clean archive it never looked at.
#[derive(Debug)]
pub enum AuditError {
    Archive(crate::server::archive::ArchiveError),
}

impl AuditError {
    /// What an operator reads.
    pub open spec fn spelled(self) -> Seq<char> {
        match self {
            AuditError::Archive(error) => error@.spelled(),
        }
    }

    /// What an operator reads.
    pub fn message(&self) -> (r: String)
        ensures
            r@ == self.spelled(),
    {
        match self {
            AuditError::Archive(error) => error.message(),
        }
    }
}

impl AuditFailure {
    /// What an operator reads.
    pub open spec fn spelled(self) -> Seq<char> {
        match self {
            AuditFailure::Unreadable { key, reason } => key@ + ": not read, so not checked: "@
                + reason@,
            AuditFailure::Failed(error) => error@.spelled(),
        }
    }

    /// What an operator reads.
    pub fn message(&self) -> (r: String)
        ensures
            r@ == self.spelled(),
    {
        match self {
            AuditFailure::Unreadable { key, reason } => {
                let mut r = key.clone();
                r.append(": not read, so not checked: ");
                r.append(reason.as_str());
                r
            },
            AuditFailure::Failed(error) => error.message(),
        }
    }
}

/// How many of some failures are of objects that could not be read.
pub open spec fn unreadable_of(failures: Seq<AuditFailure>) -> int
    decreases failures.len(),
{
    if failures.len() == 0 {
        0
    } else {
        unreadable_of(failures.drop_last()) + if failures.last() is Unreadable {
            1int
        } else {
            0
        }
    }
}

/// What one object of an archive came to.
#[derive(Debug)]
pub enum Checked {
    /// It could not be fetched.
    NotFetched { reason: String },
    /// It was fetched and verified, or was not what it is filed as. `attributed` is whether the key
    /// that signed it names its pool.
    Verified { attributed: bool, outcome: Result<Header, VerifyError> },
}

impl Audit {
    /// How many objects were looked at.
    pub open spec fn seen(self) -> int {
        self.verified + self.unattributed + self.failures@.len()
    }

    /// An audit that has looked at nothing.
    pub fn new() -> (r: Audit)
        ensures
            r.verified == 0,
            r.unattributed == 0,
            r.failures@.len() == 0,
    {
        Audit { verified: 0, unattributed: 0, failures: Vec::new() }
    }

    /// Take what one object came to. One that cannot be read or does not verify stops nothing: the
    /// point is to find all of them.
    pub fn note(&mut self, key: &str, checked: Checked)
        requires
            old(self).seen() < usize::MAX,
        ensures
            final(self).seen() == old(self).seen() + 1,
            match checked {
                Checked::NotFetched { reason } => {
                    &&& final(self).verified == old(self).verified
                    &&& final(self).unattributed == old(self).unattributed
                    &&& final(self).failures@.drop_last() == old(self).failures@
                    &&& final(self).failures@.last() matches AuditFailure::Unreadable {
                        key: named,
                        reason: said,
                    } && named@ == key@ && said@ == reason@
                },
                Checked::Verified { outcome: Err(error), .. } => {
                    &&& final(self).verified == old(self).verified
                    &&& final(self).unattributed == old(self).unattributed
                    &&& final(self).failures@ == old(self).failures@.push(
                        AuditFailure::Failed(error),
                    )
                },
                Checked::Verified { attributed, outcome: Ok(_) } => {
                    &&& final(self).verified == old(self).verified + if attributed {
                        1int
                    } else {
                        0
                    }
                    &&& final(self).unattributed == old(self).unattributed + if attributed {
                        0int
                    } else {
                        1
                    }
                    &&& final(self).failures@ == old(self).failures@
                },
            },
    {
        let ghost before = self.failures@;
        match checked {
            Checked::NotFetched { reason } => {
                self.failures.push(AuditFailure::Unreadable { key: String::from_str(key), reason });
                assert(self.failures@.drop_last() =~= before);
            },
            Checked::Verified { outcome: Err(error), .. } => {
                self.failures.push(AuditFailure::Failed(error));
            },
            Checked::Verified { attributed, outcome: Ok(_) } => {
                if attributed {
                    self.verified = self.verified + 1;
                } else {
                    self.unattributed = self.unattributed + 1;
                }
            },
        }
    }

    /// How many objects could not be read.
    pub fn unreadable(&self) -> (r: usize)
        ensures
            r == unreadable_of(self.failures@),
            r <= self.failures@.len(),
    {
        let mut count: usize = 0;
        for i in 0..self.failures.len()
            invariant
                count == unreadable_of(self.failures@.take(i as int)),
                count <= i,
        {
            assert(self.failures@.take(i + 1).drop_last() =~= self.failures@.take(i as int));
            match &self.failures[i] {
                AuditFailure::Unreadable { .. } => {
                    count = count + 1;
                },
                AuditFailure::Failed(_) => {},
            }
        }
        assert(self.failures@.take(self.failures@.len() as int) =~= self.failures@);
        count
    }

    /// How many objects are not what they are filed as.
    pub fn failed(&self) -> (r: usize)
        ensures
            r == self.failures@.len() - unreadable_of(self.failures@),
    {
        self.failures.len() - self.unreadable()
    }
}

/// An object verifies exactly where its signature stands over its bytes and it is filed under what
/// its own header says: the header's agent, the kind of its schema, and the pool of the cold key
/// that signed it. A Leios key names no pool, so nothing is held against the one in the key.
pub proof fn what_verifies_is_filed_right(
    name: key::Name,
    claim: attestation::Claim,
    wire: Seq<u8>,
    leios_stands: bool,
    said: intake::Said,
)
    requires
        name.valid(),
        key::pool_reads_back(name.pool),
        crate::wire::agent::is_slug(said.agent),
        claim.names() matches Some(signer) ==> signer.len() == 28 && key::pool_reads_back(signer),
    ensures
        fault_of(name, claim, wire, leios_stands, Ok(said)) is None <==> {
            &&& claim.stands(wire, leios_stands)
            &&& said.agent == name.agent
            &&& said.schema_version == 1 && name.kind == key::Kind::Metrics || said.schema_version
                == 2 && name.kind == key::Kind::Logs
            &&& claim.names() is None || claim.names()->0 == name.pool
        },
{
    if let Some(kind) = key::kind_of_version(said.schema_version) {
        let expected = key::Name {
            id: name.id,
            pool: match claim.names() {
                Some(signer) => signer,
                None => name.pool,
            },
            agent: said.agent,
            kind,
        };
        if expected.key() == name.key() {
            key::keys_are_distinct(expected, name);
        }
    }
}

/// A finding says what is wrong: first a signature that does not stand, then a header that cannot
/// be read, then a schema that no key names, and only then where the object is filed.
pub proof fn a_finding_says_what_is_wrong(
    name: key::Name,
    claim: attestation::Claim,
    wire: Seq<u8>,
    leios_stands: bool,
    header: Result<intake::Said, Seq<char>>,
)
    ensures
        ({
            let found = fault_of(name, claim, wire, leios_stands, header);
            let stands = claim.stands(wire, leios_stands);
            &&& !stands <==> found is Some && found->0 is BadSignature
            &&& stands && header is Err <==> found is Some && found->0 is UnreadableHeader
            &&& stands && header is Ok && header->Ok_0.schema_version != 1
                && header->Ok_0.schema_version != 2 <==> found is Some
                && found->0 is UnnameableKind
        }),
{
}

/// A failure is either of an object that could not be read or of one that did not verify, and each
/// is counted once, on its own side.
pub proof fn failures_are_told_apart(failures: Seq<AuditFailure>, failure: AuditFailure)
    ensures
        0 <= unreadable_of(failures) <= failures.len(),
        failure is Unreadable ==> unreadable_of(failures.push(failure)) == unreadable_of(failures)
            + 1,
        failure is Failed ==> unreadable_of(failures.push(failure)) == unreadable_of(failures),
        unreadable_of(Seq::empty()) == 0,
    decreases failures.len(),
{
    assert(failures.push(failure).drop_last() =~= failures);
    if failures.len() > 0 {
        failures_are_told_apart(failures.drop_last(), failure);
    }
}

}
