//! Reconstruct the index from the archive listing. The bucket is the source of truth, so this is
//! what a server whose disk was lost runs before it serves a listing again.

use vstd::prelude::*;

use crate::key;
use crate::key::{Name, ObjectName, ObjectNameError};
use crate::server::archive::ArchiveError;
use crate::server::index::IndexError;

verus! {

/// How an operator says that an archive really is empty.
pub const ALLOW_EMPTY: &'static str = "--allow-empty";

/// What a listing with no objects in it means. A mistyped or unmounted root and a bucket that has
/// never been written to list the same way, and the operator running this has already lost their
/// index: the ambiguity is refused unless they say which one it is.
#[derive(Debug, Clone, Copy, PartialEq, Eq, Structural)]
pub enum EmptyArchive {
    Refuse,
    Accept,
}

/// What the rebuild found, for the operator to compare against what they expected to be in the
/// bucket.
#[derive(Debug, PartialEq, Eq)]
pub struct RebuiltIndex {
    pub objects: usize,
}

/// Why the index was not rebuilt.
#[derive(Debug)]
pub enum RebuildError {
    Archive(ArchiveError),
    ObjectName(ObjectNameError),
    Index(IndexError),
    Empty { archive: String },
}

impl RebuildError {
    /// What an operator reads.
    pub open spec fn spelled(self) -> Seq<char> {
        match self {
            RebuildError::Archive(error) => error@.spelled(),
            RebuildError::ObjectName(error) => key::key_fault_text(error.key@, error.reason@),
            RebuildError::Index(error) => error.spelled(),
            RebuildError::Empty { archive } => archive@
                + " listed no objects, so the index would stay empty (pass "@ + ALLOW_EMPTY@
                + " if that archive really is empty)"@,
        }
    }

    /// What an operator reads.
    pub fn message(&self) -> (r: String)
        ensures
            r@ == self.spelled(),
    {
        match self {
            RebuildError::Archive(error) => error.message(),
            RebuildError::ObjectName(error) => error.message(),
            RebuildError::Index(error) => error.message(),
            RebuildError::Empty { archive } => {
                let mut r = archive.clone();
                r.append(" listed no objects, so the index would stay empty (pass ");
                r.append(ALLOW_EMPTY);
                r.append(" if that archive really is empty)");
                r
            },
        }
    }
}

/// A rebuild under way: how many keys the listing has produced.
#[derive(Debug)]
pub struct Rebuild {
    pub objects: usize,
}

impl Rebuild {
    /// Nothing listed yet.
    pub fn new() -> (r: Rebuild)
        ensures
            r.objects == 0,
    {
        Rebuild { objects: 0 }
    }

    /// The row of the next key the listing produced, or why it has none.
    pub fn row(&mut self, key: &str) -> (r: Result<ObjectName, RebuildError>)
        requires
            old(self).objects < usize::MAX,
        ensures
            final(self).objects == old(self).objects + 1,
            match r {
                Ok(name) => key::parsed(key@) == Ok::<Name, Seq<char>>(name@),
                Err(error) => error is ObjectName && error->ObjectName_0.key@ == key@
                    && key::parsed(key@) == Err::<Name, Seq<char>>(error->ObjectName_0.reason@),
            },
    {
        self.objects += 1;
        match ObjectName::parse(key) {
            Ok(name) => Ok(name),
            Err(error) => Err(RebuildError::ObjectName(error)),
        }
    }

    /// What the rebuild came to once the listing has ended.
    pub fn finish(self, empty: EmptyArchive, archive: &str) -> (r: Result<
        RebuiltIndex,
        RebuildError,
    >)
        ensures
            match r {
                Ok(rebuilt) => rebuilt.objects == self.objects && !(self.objects == 0 && empty
                    == EmptyArchive::Refuse),
                Err(error) => self.objects == 0 && empty == EmptyArchive::Refuse && error is Empty
                    && error->archive@ == archive@,
            },
    {
        if self.objects == 0 && empty == EmptyArchive::Refuse {
            return Err(RebuildError::Empty { archive: String::from_str(archive) });
        }
        Ok(RebuiltIndex { objects: self.objects })
    }
}

/// A rebuild that found nothing is refused unless an empty archive was expected; any other is of as
/// many objects as were listed.
pub proof fn an_empty_archive_is_refused(
    rebuild: Rebuild,
    empty: EmptyArchive,
    archive: &str,
    given: Result<RebuiltIndex, RebuildError>,
)
    requires
        call_ensures(Rebuild::finish, (rebuild, empty, archive), given),
    ensures
        given is Err <==> rebuild.objects == 0 && empty == EmptyArchive::Refuse,
        given matches Ok(rebuilt) ==> rebuilt.objects == rebuild.objects,
{
}

}
