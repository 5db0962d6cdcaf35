//! What bar the objects in a download directory were written under, recorded in the directory
//! itself: a directory is written under one bar, and a run that asks for another is refused
//! before it downloads anything.

use vstd::prelude::*;

use crate::count::NonZeroU64;
use crate::fetch::verification::{Insist, Verification};
use crate::path;
use crate::text;

verus! {

/// The record's name inside the download directory. Dotted and at the root, so no glob a reader
/// writes over the tree can reach it.
pub const FILE: &'static str = ".metsuke-verification.json";

/// What every object under this directory was held to.
#[derive(Debug, Clone, Copy, PartialEq, Eq, Structural)]
pub struct Verified {
    pub insist: Insist,
    pub max_object_bytes: NonZeroU64,
}

impl Verified {
    /// One line, for a refusal that has to show two of these.
    pub open spec fn described(self) -> Seq<char> {
        "max-object-bytes "@ + text::decimal(self.max_object_bytes@) + ", "@ + self.insist.spelled()
    }

    /// What a run holds objects to.
    pub fn of(verification: &Verification) -> (r: Verified)
        ensures
            r.insist == verification.insist,
            r.max_object_bytes == verification.max_object_bytes,
    {
        Verified {
            insist: verification.insist,
            max_object_bytes: verification.max_object_bytes,
        }
    }

    /// One line, for a refusal that has to show two of these.
    pub fn describe(&self) -> (r: String)
        ensures
            r@ == self.described(),
    {
        let mut r = String::from_str("max-object-bytes ");
        r.append(text::decimal_of(self.max_object_bytes.get() as u128).as_str());
        r.append(", ");
        r.append(self.insist.as_str());
        r
    }
}

/// What was found where the record was looked for.
#[derive(Debug)]
pub enum Record {
    /// No record yet.
    Absent,
    /// It could not be read.
    Failed { reason: String },
    /// It was read and is no record.
    Unreadable { reason: String },
    /// It records this bar.
    Held { verified: Verified },
}

/// What a run does with the directory before it downloads anything.
#[derive(Debug, Clone, Copy, PartialEq, Eq, Structural)]
pub enum Claim {
    /// It is already held to this run's bar.
    Stands,
    /// It records none: write this one down.
    Write { verified: Verified },
}

/// Why a directory cannot be written under a run's bar.
#[derive(Debug)]
pub enum ProvenanceError {
    Read { path: String, reason: String },
    Unreadable { path: String, reason: String },
    /// Refused before anything is downloaded, so a directory never gains an object under a bar it
    /// does not record.
    OtherBar { path: String, held: String, asked: String },
    Write { path: String, reason: String },
}

/// What a `ProvenanceError` is, over plain texts.
pub enum ProvenanceFault {
    Read { path: Seq<char>, reason: Seq<char> },
    Unreadable { path: Seq<char>, reason: Seq<char> },
    OtherBar { path: Seq<char>, held: Seq<char>, asked: Seq<char> },
    Write { path: Seq<char>, reason: Seq<char> },
}

impl View for ProvenanceError {
    type V = ProvenanceFault;

    open spec fn view(&self) -> ProvenanceFault {
        match *self {
            ProvenanceError::Read { path, reason } => ProvenanceFault::Read {
                path: path@,
                reason: reason@,
            },
            ProvenanceError::Unreadable { path, reason } => ProvenanceFault::Unreadable {
                path: path@,
                reason: reason@,
            },
            ProvenanceError::OtherBar { path, held, asked } => ProvenanceFault::OtherBar {
                path: path@,
                held: held@,
                asked: asked@,
            },
            ProvenanceError::Write { path, reason } => ProvenanceFault::Write {
                path: path@,
                reason: reason@,
            },
        }
    }
}

impl ProvenanceFault {
    /// What an operator reads.
    pub open spec fn spelled(self) -> Seq<char> {
        match self {
            ProvenanceFault::Read { path, reason } => "cannot read "@ + path + ": "@ + reason,
            ProvenanceFault::Unreadable { path, reason } => path + " does not parse: "@ + reason,
            ProvenanceFault::OtherBar { path, held, asked } => path
                + " records another bar\n  holds: "@ + held + "\n  asked: "@ + asked
                + "\n  name a directory of its own for this one, or ask for what it holds"@,
            ProvenanceFault::Write { path, reason } => "cannot write "@ + path + ": "@ + reason,
        }
    }
}

impl ProvenanceError {
    /// What an operator reads.
    pub fn message(&self) -> (r: String)
        ensures
            r@ == self@.spelled(),
    {
        match self {
            ProvenanceError::Read { path, reason } => {
                let mut r = String::from_str("cannot read ");
                r.append(path.as_str());
                r.append(": ");
                r.append(reason.as_str());
                r
            },
            ProvenanceError::Unreadable { path, reason } => {
                let mut r = path.clone();
                r.append(" does not parse: ");
                r.append(reason.as_str());
                r
            },
            ProvenanceError::OtherBar { path, held, asked } => {
                let mut r = path.clone();
                r.append(" records another bar\n  holds: ");
                r.append(held.as_str());
                r.append("\n  asked: ");
                r.append(asked.as_str());
                r.append("\n  name a directory of its own for this one, or ask for what it holds");
                r
            },
            ProvenanceError::Write { path, reason } => {
                let mut r = String::from_str("cannot write ");
                r.append(path.as_str());
                r.append(": ");
                r.append(reason.as_str());
                r
            },
        }
    }
}

/// What a directory's record comes to for a run.
pub open spec fn claimed(into: Seq<char>, record: Record, asked: Verified) -> Result<
    Claim,
    ProvenanceFault,
> {
    let path = path::joined_to(into, FILE@);
    match record {
        Record::Absent => Ok(Claim::Write { verified: asked }),
        Record::Failed { reason } => Err(ProvenanceFault::Read { path, reason: reason@ }),
        Record::Unreadable { reason } => Err(
            ProvenanceFault::Unreadable { path, reason: reason@ },
        ),
        Record::Held { verified } => if verified == asked {
            Ok(Claim::Stands)
        } else {
            Err(
                ProvenanceFault::OtherBar {
                    path,
                    held: verified.described(),
                    asked: asked.described(),
                },
            )
        },
    }
}

/// Claim `into` for this run's bar, or refuse the run.
///
/// A directory with no record is claimed: it is either empty or there is nothing to read the bar
/// of what is already there off. From the claim onward the directory is held to it.
pub fn claim(into: &str, record: Record, verification: &Verification) -> (r: Result<
    Claim,
    ProvenanceError,
>)
    ensures
        ({
            let asked = Verified {
                insist: verification.insist,
                max_object_bytes: verification.max_object_bytes,
            };
            match r {
                Ok(claim) => claimed(into@, record, asked) == Ok::<Claim, ProvenanceFault>(claim),
                Err(error) => claimed(into@, record, asked) == Err::<Claim, ProvenanceFault>(
                    error@,
                ),
            }
        }),
{
    let path = path::join(into, FILE);
    let asked = Verified::of(verification);
    match record {
        Record::Absent => Ok(Claim::Write { verified: asked }),
        Record::Failed { reason } => Err(ProvenanceError::Read { path, reason }),
        Record::Unreadable { reason } => Err(ProvenanceError::Unreadable { path, reason }),
        Record::Held { verified } => {
            if verified == asked {
                Ok(Claim::Stands)
            } else {
                Err(
                    ProvenanceError::OtherBar {
                        path,
                        held: verified.describe(),
                        asked: asked.describe(),
                    },
                )
            }
        },
    }
}

/// A directory keeps the bar it was claimed under: once a claim was written down, a run is let in
/// exactly where it asks for that bar.
pub proof fn directory_keeps_its_bar(into: Seq<char>, written: Verified, asked: Verified)
    ensures
        claimed(into, Record::Held { verified: written }, asked) is Ok <==> written == asked,
        claimed(into, Record::Absent, written) == Ok::<Claim, ProvenanceFault>(
            Claim::Write { verified: written },
        ),
{
}

/// A directory stands for a run exactly where the run insists on the same and holds objects to the
/// same size; of either alone that is not enough. A new directory records both as they were asked.
pub proof fn both_halves_of_the_bar_bind(into: Seq<char>, written: Verified, asked: Verified)
    ensures
        claimed(into, Record::Held { verified: written }, asked) == Ok::<Claim, ProvenanceFault>(
            Claim::Stands,
        ) <==> written.insist == asked.insist && written.max_object_bytes
            == asked.max_object_bytes,
        !(written.insist == asked.insist && written.max_object_bytes == asked.max_object_bytes)
            ==> claimed(into, Record::Held { verified: written }, asked) matches Err(
            ProvenanceFault::OtherBar { .. },
        ),
        claimed(into, Record::Absent, asked) matches Ok(Claim::Write { verified })
            && verified.insist == asked.insist && verified.max_object_bytes
            == asked.max_object_bytes,
{
}

}
