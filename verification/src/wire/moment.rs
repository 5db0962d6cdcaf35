//! Instants, and how they are shown.

use vstd::prelude::*;

verus! {

/// The furthest an instant lies from 1970, in nanoseconds: past the calendar's years -9999 and
/// 9999 on either side.
pub const FURTHEST: i128 = 400_000_000_000_000_000_000;

/// An instant: the nanoseconds since 1970, and the text it is shown as.
#[derive(Debug)]
pub struct Moment {
    nanos: i128,
    shown: String,
}

/// Whether nanoseconds since 1970 are an instant the calendar has.
pub open spec fn on_calendar(nanos: int) -> bool {
    -FURTHEST <= nanos <= FURTHEST
}

impl Moment {
    #[verifier::type_invariant]
    spec fn well_formed(self) -> bool {
        on_calendar(self.nanos as int)
    }

    /// The nanoseconds since 1970.
    pub closed spec fn at(self) -> int {
        self.nanos as int
    }

    /// The text this instant is shown as.
    pub closed spec fn text(self) -> Seq<char> {
        self.shown@
    }

    /// The instant so many nanoseconds after 1970, where the calendar has it.
    pub fn new(nanos: i128, shown: String) -> (r: Option<Moment>)
        ensures
            match r {
                Some(moment) => on_calendar(nanos as int) && moment.at() == nanos && moment.text()
                    == shown@,
                None => !on_calendar(nanos as int),
            },
    {
        if -FURTHEST <= nanos && nanos <= FURTHEST {
            Some(Moment { nanos, shown })
        } else {
            None
        }
    }

    /// The nanoseconds since 1970.
    pub fn nanos(&self) -> (r: i128)
        ensures
            r == self.at(),
            on_calendar(r as int),
    {
        proof {
            use_type_invariant(self);
        }
        self.nanos
    }

    /// The text this instant is shown as.
    pub fn shown(&self) -> (r: &str)
        ensures
            r@ == self.text(),
    {
        self.shown.as_str()
    }
}

impl Clone for Moment {
    fn clone(&self) -> (r: Self)
        ensures
            r.at() == self.at(),
            r.text() == self.text(),
    {
        proof {
            use_type_invariant(self);
        }
        Moment { nanos: self.nanos, shown: self.shown.clone() }
    }
}

}
