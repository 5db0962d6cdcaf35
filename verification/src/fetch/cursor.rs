//! Where a sync got to: the key of the last object it was through with. What a run was asked for
//! is held beside it, because a cursor only means anything against that: a run advances past
//! every key it saw, downloaded, filtered out or refused alike, so the same cursor read under
//! anything else would skip objects it never fetched.

use vstd::prelude::*;

use crate::count::NonZeroU64;
use crate::fetch::select;
use crate::fetch::select::{Filters, Selection};
use crate::fetch::verification::{Insist, Verification, DEFAULT_MAX_OBJECT_BYTES};
use crate::names::Names;
use crate::outside;
use crate::text;
use crate::wire::agent::AgentId;
use crate::wire::pool::PoolId;

verus! {

/// The state file's whole content.
#[derive(Debug, PartialEq, Eq)]
pub struct Cursor {
    pub prefix: String,
    pub selection: Selection,
    /// What the run insisted on. A refusal advances the cursor too, so a cursor taken under one
    /// bar and read under a lower one would resume past objects that bar refused and this one
    /// wants.
    pub insist: Insist,
    /// The size bound the run held objects to, here for the same reason.
    pub max_object_bytes: NonZeroU64,
    /// The first day the run was bounded to. It relocates where the listing starts. The last day
    /// is not here: it only stops the walk, in the direction the cursor moves, so nothing is ever
    /// passed over by it.
    pub from: Option<String>,
    /// The last key seen. Empty is the archive's start.
    pub after: String,
    /// Keys whose bytes did not verify, kept across runs: the cursor advances past a refusal like
    /// any other key, so without this a second run would find nothing wrong. Cleared only when
    /// asked.
    pub unverified: Names,
}

/// What a cursor is, over plain values.
pub struct Place {
    pub prefix: Seq<char>,
    pub selection: select::Choice,
    pub insist: Insist,
    pub max_object_bytes: int,
    pub from: Option<Seq<char>>,
    pub after: Seq<char>,
    pub unverified: Set<Seq<char>>,
}

/// What was found where the state file was looked for.
#[derive(Debug)]
pub enum StateFile {
    /// No file yet.
    Absent,
    /// It could not be read.
    Failed { reason: String },
    /// It was read and is no cursor.
    Unreadable { reason: String },
    /// It holds this cursor.
    Held { cursor: Cursor },
}

/// Why a run has no cursor to go by.
#[derive(Debug)]
pub enum CursorError {
    Read { path: String, reason: String },
    Unreadable { path: String, reason: String },
    /// Refused rather than reset: a cursor read under anything wider than it was taken under
    /// would skip everything before it and report a whole sync.
    OtherFilters { path: String, held: String, asked: String },
    Write { path: String, reason: String },
}

/// What a `CursorError` is, over plain texts.
pub enum CursorFault {
    Read { path: Seq<char>, reason: Seq<char> },
    Unreadable { path: Seq<char>, reason: Seq<char> },
    OtherFilters { path: Seq<char>, held: Seq<char>, asked: Seq<char> },
    Write { path: Seq<char>, reason: Seq<char> },
}

impl View for Cursor {
    type V = Place;

    open spec fn view(&self) -> Place {
        Place {
            prefix: self.prefix@,
            selection: self.selection@,
            insist: self.insist,
            max_object_bytes: self.max_object_bytes@,
            from: text::view_of(self.from),
            after: self.after@,
            unverified: self.unverified@,
        }
    }
}

impl View for CursorError {
    type V = CursorFault;

    open spec fn view(&self) -> CursorFault {
        match *self {
            CursorError::Read { path, reason } => CursorFault::Read {
                path: path@,
                reason: reason@,
            },
            CursorError::Unreadable { path, reason } => CursorFault::Unreadable {
                path: path@,
                reason: reason@,
            },
            CursorError::OtherFilters { path, held, asked } => CursorFault::OtherFilters {
                path: path@,
                held: held@,
                asked: asked@,
            },
            CursorError::Write { path, reason } => CursorFault::Write {
                path: path@,
                reason: reason@,
            },
        }
    }
}

impl CursorFault {
    /// What an operator reads. The two descriptions stand on their own lines at one indent, so
    /// the reader finds the part that differs.
    pub open spec fn spelled(self) -> Seq<char> {
        match self {
            CursorFault::Read { path, reason } => "cannot read the state file "@ + path + ": "@
                + reason,
            CursorFault::Unreadable { path, reason } => "the state file "@ + path
                + " does not parse: "@ + reason,
            CursorFault::OtherFilters { path, held, asked } => "the state file "@ + path
                + " is for another run\n  holds: "@ + held + "\n  asked: "@ + asked
                + "\n  name a state file of its own for this one"@,
            CursorFault::Write { path, reason } => "cannot write the state file "@ + path + ": "@
                + reason,
        }
    }
}

impl CursorError {
    /// What an operator reads.
    pub fn message(&self) -> (r: String)
        ensures
            r@ == self@.spelled(),
    {
        match self {
            CursorError::Read { path, reason } => {
                let mut r = String::from_str("cannot read the state file ");
                r.append(path.as_str());
                r.append(": ");
                r.append(reason.as_str());
                r
            },
            CursorError::Unreadable { path, reason } => {
                let mut r = String::from_str("the state file ");
                r.append(path.as_str());
                r.append(" does not parse: ");
                r.append(reason.as_str());
                r
            },
            CursorError::OtherFilters { path, held, asked } => {
                let mut r = String::from_str("the state file ");
                r.append(path.as_str());
                r.append(" is for another run\n  holds: ");
                r.append(held.as_str());
                r.append("\n  asked: ");
                r.append(asked.as_str());
                r.append("\n  name a state file of its own for this one");
                r
            },
            CursorError::Write { path, reason } => {
                let mut r = String::from_str("cannot write the state file ");
                r.append(path.as_str());
                r.append(": ");
                r.append(reason.as_str());
                r
            },
        }
    }
}

/// What a state file is for, as one line. A bound that is the shipped one goes without saying.
pub open spec fn description(
    prefix: Seq<char>,
    selection: select::Choice,
    insist: Insist,
    max_object_bytes: int,
    from: Option<Seq<char>>,
) -> Seq<char> {
    "prefix "@ + outside::quoted(prefix) + ", "@ + selection.spelled() + (if max_object_bytes
        == DEFAULT_MAX_OBJECT_BYTES {
        Seq::empty()
    } else {
        ", max-object-bytes "@ + text::decimal(max_object_bytes)
    }) + ", "@ + insist.spelled() + (match from {
        Some(from) => ", from "@ + outside::quoted(from),
        None => Seq::empty(),
    })
}

/// What a state file is for, as one line.
fn describe(
    prefix: &str,
    selection: &Selection,
    insist: Insist,
    max_object_bytes: NonZeroU64,
    from: &Option<String>,
) -> (r: String)
    ensures
        r@ == description(
            prefix@,
            selection@,
            insist,
            max_object_bytes@,
            text::view_of(*from),
        ),
{
    let mut r = String::from_str("prefix ");
    r.append(outside::quote(prefix).as_str());
    r.append(", ");
    r.append(selection.describe().as_str());
    let max: u64 = max_object_bytes.get();
    let ghost before = r@;
    if max != DEFAULT_MAX_OBJECT_BYTES {
        r.append(", max-object-bytes ");
        r.append(text::decimal_of(max as u128).as_str());
        assert(r@ =~= before + (", max-object-bytes "@ + text::decimal(max as int)));
    } else {
        assert(r@ =~= before + Seq::<char>::empty());
    }
    r.append(", ");
    r.append(insist.as_str());
    let ghost before = r@;
    match from {
        Some(from) => {
            r.append(", from ");
            r.append(outside::quote(from.as_str()).as_str());
            assert(r@ =~= before + (", from "@ + outside::quoted(from@)));
        },
        None => {
            assert(r@ =~= before + Seq::<char>::empty());
        },
    }
    r
}

impl Place {
    /// The cursor of a run that has seen nothing.
    pub open spec fn fresh(filters: Filters, verification: Verification) -> Place {
        Place {
            prefix: filters.prefix@,
            selection: filters.selection@,
            insist: verification.insist,
            max_object_bytes: verification.max_object_bytes@,
            from: text::view_of(filters.days.from),
            after: Seq::empty(),
            unverified: Set::empty(),
        }
    }

    /// Whether this cursor is of a run that was asked for the same: what it was asked for, and
    /// only that. `after` moves and `unverified` grows as a run goes.
    pub open spec fn is_for(self, filters: Filters, verification: Verification) -> bool {
        &&& self.prefix == filters.prefix@
        &&& self.selection == filters.selection@
        &&& self.insist == verification.insist
        &&& self.max_object_bytes == verification.max_object_bytes@
        &&& self.from == text::view_of(filters.days.from)
    }

    /// What this cursor is for, as one line.
    pub open spec fn described(self) -> Seq<char> {
        description(self.prefix, self.selection, self.insist, self.max_object_bytes, self.from)
    }

    /// This cursor behind a key.
    pub open spec fn advanced(self, key: Seq<char>) -> Place {
        Place { after: key, ..self }
    }

    /// This cursor behind a key whose bytes did not verify.
    pub open spec fn advanced_unverified(self, key: Seq<char>) -> Place {
        Place { after: key, unverified: self.unverified.insert(key), ..self }
    }

    /// This cursor with the recorded keys forgotten.
    pub open spec fn forgotten(self) -> Place {
        Place { unverified: Set::empty(), ..self }
    }
}

/// What a state file comes to for a run.
pub open spec fn resumed(
    path: Seq<char>,
    state: StateFile,
    filters: Filters,
    verification: Verification,
) -> Result<Place, CursorFault> {
    match state {
        StateFile::Absent => Ok(Place::fresh(filters, verification)),
        StateFile::Failed { reason } => Err(CursorFault::Read { path, reason: reason@ }),
        StateFile::Unreadable { reason } => Err(CursorFault::Unreadable { path, reason: reason@ }),
        StateFile::Held { cursor } => if cursor@.is_for(filters, verification) {
            Ok(cursor@)
        } else {
            Err(
                CursorFault::OtherFilters {
                    path,
                    held: cursor@.described(),
                    asked: Place::fresh(filters, verification).described(),
                },
            )
        },
    }
}

fn same_option(a: &Option<String>, b: &Option<String>) -> (r: bool)
    ensures
        r == (text::view_of(*a) == text::view_of(*b)),
{
    match (a, b) {
        (Some(a), Some(b)) => text::same(a.as_str(), b.as_str()),
        (None, None) => true,
        _ => false,
    }
}

fn cloned_option(a: &Option<String>) -> (r: Option<String>)
    ensures
        text::view_of(r) == text::view_of(*a),
{
    match a {
        Some(a) => Some(a.clone()),
        None => None,
    }
}

impl Cursor {
    /// The cursor that `state`, found at `path`, holds for a run, or a fresh one where there is
    /// no state file yet.
    ///
    /// Any difference in what was asked for is refused and not just a lower bar: raising it
    /// leaves objects on disk the new bar would never have written, so the directory stops
    /// matching what the flags say it holds either way.
    pub fn read(
        path: &str,
        state: StateFile,
        filters: &Filters<'_>,
        verification: &Verification,
    ) -> (r: Result<Cursor, CursorError>)
        ensures
            match r {
                Ok(cursor) => resumed(path@, state, *filters, *verification) == Ok::<
                    Place,
                    CursorFault,
                >(cursor@),
                Err(error) => resumed(path@, state, *filters, *verification) == Err::<
                    Place,
                    CursorFault,
                >(error@),
            },
    {
        match state {
            StateFile::Absent => Ok(
                Cursor {
                    prefix: String::from_str(filters.prefix),
                    selection: filters.selection.clone(),
                    insist: verification.insist,
                    max_object_bytes: verification.max_object_bytes,
                    from: cloned_option(&filters.days.from),
                    after: String::new(),
                    unverified: Names::new(),
                },
            ),
            StateFile::Failed { reason } => Err(
                CursorError::Read { path: String::from_str(path), reason },
            ),
            StateFile::Unreadable { reason } => Err(
                CursorError::Unreadable { path: String::from_str(path), reason },
            ),
            StateFile::Held { cursor } => {
                if cursor.is_for(filters, verification) {
                    return Ok(cursor);
                }
                Err(
                    CursorError::OtherFilters {
                        path: String::from_str(path),
                        held: describe(
                            cursor.prefix.as_str(),
                            &cursor.selection,
                            cursor.insist,
                            cursor.max_object_bytes,
                            &cursor.from,
                        ),
                        asked: describe(
                            filters.prefix,
                            filters.selection,
                            verification.insist,
                            verification.max_object_bytes,
                            &filters.days.from,
                        ),
                    },
                )
            },
        }
    }

    fn is_for(&self, filters: &Filters<'_>, verification: &Verification) -> (r: bool)
        ensures
            r == self@.is_for(*filters, *verification),
    {
        text::same(self.prefix.as_str(), filters.prefix) && self.selection.same(filters.selection)
            && self.insist == verification.insist && self.max_object_bytes.get()
            == verification.max_object_bytes.get() && same_option(&self.from, &filters.days.from)
    }

    /// Move the cursor to `key`.
    pub fn advance(&mut self, key: &str)
        ensures
            final(self)@ == old(self)@.advanced(key@),
    {
        self.after = String::from_str(key);
    }

    /// Record a key whose bytes did not verify, and advance past it. One step, so a run killed
    /// behind it cannot leave the cursor past a key this list does not name.
    pub fn advance_unverified(&mut self, key: &str)
        ensures
            final(self)@ == old(self)@.advanced_unverified(key@),
    {
        let mut unverified = self.unverified.clone();
        unverified.insert(key);
        self.unverified = unverified;
        self.after = String::from_str(key);
    }

    /// Forget the recorded keys, which is the operator saying they have been dealt with, and say
    /// how many there were.
    pub fn forget_unverified(&mut self) -> (r: usize)
        ensures
            final(self)@ == old(self)@.forgotten(),
            r == old(self)@.unverified.len(),
    {
        let forgotten: usize = self.unverified.len();
        self.unverified = Names::new();
        forgotten
    }
}

/// A cursor a run took is one the same run reads back, wherever it got to: nothing that moves as
/// a run goes is compared.
pub proof fn own_cursor_resumes(
    place: Place,
    key: Seq<char>,
    filters: Filters,
    verification: Verification,
)
    ensures
        Place::fresh(filters, verification).is_for(filters, verification),
        place.is_for(filters, verification) ==> place.advanced(key).is_for(filters, verification),
        place.is_for(filters, verification) ==> place.advanced_unverified(key).is_for(
            filters,
            verification,
        ),
        place.is_for(filters, verification) ==> place.forgotten().is_for(filters, verification),
{
}

/// The first day binds a cursor and the last day does not: two runs that differ in the last day
/// alone read the same out of one state file.
pub proof fn last_day_does_not_bind(
    path: Seq<char>,
    state: StateFile,
    a: Filters,
    b: Filters,
    verification: Verification,
)
    requires
        a.prefix == b.prefix,
        a.selection == b.selection,
        text::view_of(a.days.from) == text::view_of(b.days.from),
    ensures
        resumed(path, state, a, verification) == resumed(path, state, b, verification),
{
}

/// Any difference in what was asked for is refused.
pub proof fn other_run_is_refused(
    path: Seq<char>,
    cursor: Cursor,
    filters: Filters,
    verification: Verification,
)
    ensures
        resumed(path, StateFile::Held { cursor }, filters, verification) is Ok
            <==> cursor@.is_for(filters, verification),
{
}

/// Recorded keys stay recorded until they are forgotten.
pub proof fn unverified_stays(place: Place, key: Seq<char>, recorded: Seq<char>)
    requires
        place.unverified.contains(recorded),
    ensures
        place.advanced(key).unverified.contains(recorded),
        place.advanced_unverified(key).unverified.contains(recorded),
        place.advanced_unverified(key).unverified.contains(key),
{
}

/// Whether two filters by pool are one.
pub open spec fn same_pool(a: Option<PoolId>, b: Option<PoolId>) -> bool {
    match (a, b) {
        (Some(a), Some(b)) => a.hash@ == b.hash@,
        (None, None) => true,
        _ => false,
    }
}

/// Whether two filters by agent are one.
pub open spec fn same_agent(a: Option<AgentId>, b: Option<AgentId>) -> bool {
    match (a, b) {
        (Some(a), Some(b)) => a@ == b@,
        (None, None) => true,
        _ => false,
    }
}

/// A state file resumes a run exactly where every single thing the two were asked for is the same:
/// the prefix, the pool, the agent, the kind, the bar, the size bound and the first day. What it
/// resumes from is what the file holds, as it holds it.
pub proof fn only_the_same_run_resumes(
    path: Seq<char>,
    cursor: Cursor,
    filters: Filters,
    verification: Verification,
)
    ensures
        resumed(path, StateFile::Held { cursor }, filters, verification) is Ok <==> {
            &&& cursor.prefix@ == filters.prefix@
            &&& same_pool(cursor.selection.pool, filters.selection.pool)
            &&& same_agent(cursor.selection.agent, filters.selection.agent)
            &&& cursor.selection.kind == filters.selection.kind
            &&& cursor.insist == verification.insist
            &&& cursor.max_object_bytes@ == verification.max_object_bytes@
            &&& text::view_of(cursor.from) == text::view_of(filters.days.from)
        },
        resumed(path, StateFile::Held { cursor }, filters, verification) matches Ok(place)
            ==> place.after == cursor.after@ && place.unverified == cursor.unverified@,
        resumed(path, StateFile::Held { cursor }, filters, verification) is Err ==> resumed(
            path,
            StateFile::Held { cursor },
            filters,
            verification,
        )->Err_0 is OtherFilters,
{
}

/// A run without a state file starts at the archive's start with nothing recorded, and what it
/// leaves is for a run that asks for the same.
pub proof fn no_state_file_is_the_start(
    path: Seq<char>,
    filters: Filters,
    verification: Verification,
)
    ensures
        resumed(path, StateFile::Absent, filters, verification) matches Ok(place) && {
            &&& place.after.len() == 0
            &&& place.unverified == Set::<Seq<char>>::empty()
            &&& place.prefix == filters.prefix@
            &&& place.selection == filters.selection@
            &&& place.insist == verification.insist
            &&& place.max_object_bytes == verification.max_object_bytes@
            &&& place.from == text::view_of(filters.days.from)
        },
{
}

/// Settling a key moves the cursor to it and changes nothing else that the cursor holds; only one
/// that failed to verify is recorded besides, and only forgetting drops what was recorded.
pub proof fn settling_moves_the_cursor(place: Place, key: Seq<char>, other: Seq<char>)
    ensures
        place.advanced(key).after == key,
        place.advanced(key) == (Place { after: key, ..place }),
        place.advanced_unverified(key).after == key,
        place.advanced_unverified(key) == (Place {
            after: key,
            unverified: place.advanced_unverified(key).unverified,
            ..place
        }),
        place.advanced_unverified(key).unverified.contains(other) <==> other == key
            || place.unverified.contains(other),
        !place.forgotten().unverified.contains(other),
        place.forgotten().after == place.after,
{
}

/// Whatever is resumed from a state file is a run that asks for the same in every part: a file of
/// another run is never taken for this one's.
pub proof fn what_is_resumed_asks_for_the_same(
    path: &str,
    cursor: Cursor,
    filters: &Filters,
    verification: &Verification,
    given: Result<Cursor, CursorError>,
)
    requires
        call_ensures(
            Cursor::read,
            (path, StateFile::Held { cursor }, filters, verification),
            given,
        ),
    ensures
        given is Ok <==> {
            &&& cursor.prefix@ == filters.prefix@
            &&& same_pool(cursor.selection.pool, filters.selection.pool)
            &&& same_agent(cursor.selection.agent, filters.selection.agent)
            &&& cursor.selection.kind == filters.selection.kind
            &&& cursor.insist == verification.insist
            &&& cursor.max_object_bytes@ == verification.max_object_bytes@
            &&& text::view_of(cursor.from) == text::view_of(filters.days.from)
        },
        given matches Ok(resumed) ==> resumed@.after == cursor.after@ && resumed@.unverified
            == cursor.unverified@,
{
    only_the_same_run_resumes(path@, cursor, *filters, *verification);
}

}
