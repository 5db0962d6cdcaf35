//! What a run will hold to check an object, and what it insists on before it writes one.

use vstd::prelude::*;

use crate::count::NonZeroU64;

verus! {

/// What one object may weigh before a run that was not told otherwise refuses to hold it.
pub const DEFAULT_MAX_OBJECT_BYTES: u64 = 16_777_216;

/// The bar an object has to meet before it is written. Each is higher than the one before it.
#[derive(Debug, Clone, Copy, PartialEq, Eq, Structural)]
pub enum Insist {
    /// Whatever does not fail to verify.
    Nothing,
    /// Only what a signature stands over, whichever key made it.
    Attested,
    /// Only what a cold key signed, which names its pool by itself.
    ColdSigned,
}

impl Insist {
    /// How high the bar is.
    pub open spec fn height(self) -> int {
        match self {
            Insist::Nothing => 0,
            Insist::Attested => 1,
            Insist::ColdSigned => 2,
        }
    }

    /// How the bar is written.
    pub open spec fn spelled(self) -> Seq<char> {
        match self {
            Insist::Nothing => "nothing required"@,
            Insist::Attested => "--require-attested"@,
            Insist::ColdSigned => "--require-cold-signed"@,
        }
    }

    /// The higher of two bars.
    pub open spec fn higher_spec(self, other: Insist) -> Insist {
        if self.height() < other.height() {
            other
        } else {
            self
        }
    }

    /// The higher of two bars.
    pub fn higher(self, other: Insist) -> (r: Insist)
        ensures
            r == self.higher_spec(other),
    {
        match (self, other) {
            (Insist::Nothing, _) => other,
            (Insist::Attested, Insist::ColdSigned) => other,
            _ => self,
        }
    }

    /// How the bar is written.
    pub fn as_str(&self) -> (r: &'static str)
        ensures
            r@ == self.spelled(),
    {
        match self {
            Insist::Nothing => "nothing required",
            Insist::Attested => "--require-attested",
            Insist::ColdSigned => "--require-cold-signed",
        }
    }
}

/// What a run will hold and what it insists on.
#[derive(Debug, Clone, Copy, PartialEq, Eq, Structural)]
pub struct Verification {
    /// Ceiling on one object, because checking it means holding it.
    pub max_object_bytes: NonZeroU64,
    pub insist: Insist,
}

/// The bound a run that set no flag holds objects to.
pub fn default_max_object_bytes() -> (r: NonZeroU64)
    ensures
        r@ == DEFAULT_MAX_OBJECT_BYTES,
{
    NonZeroU64::new(DEFAULT_MAX_OBJECT_BYTES).unwrap()
}

/// The higher of two bars is one of them and no lower than either, whichever is named first; and
/// no two bars stand equally high.
pub proof fn the_higher_bar_is_the_greater(a: Insist, b: Insist, c: Insist)
    ensures
        a.higher_spec(b) == a || a.higher_spec(b) == b,
        a.higher_spec(b).height() >= a.height(),
        a.higher_spec(b).height() >= b.height(),
        a.higher_spec(b) == b.higher_spec(a),
        a.higher_spec(b).higher_spec(c) == a.higher_spec(b.higher_spec(c)),
        a.height() == b.height() ==> a == b,
        Insist::Nothing.higher_spec(a) == a,
        Insist::ColdSigned.higher_spec(a) == Insist::ColdSigned,
{
}

}
