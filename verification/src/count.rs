//! Whole numbers above zero.

use vstd::prelude::*;

verus! {

/// A `u32` above zero.
#[derive(Debug, Clone, Copy, PartialEq, Eq, Structural)]
pub struct NonZeroU32 {
    value: u32,
}

/// A `u64` above zero.
#[derive(Debug, Clone, Copy, PartialEq, Eq, Structural)]
pub struct NonZeroU64 {
    value: u64,
}

impl View for NonZeroU32 {
    type V = int;

    closed spec fn view(&self) -> int {
        self.value as int
    }
}

impl View for NonZeroU64 {
    type V = int;

    closed spec fn view(&self) -> int {
        self.value as int
    }
}

impl NonZeroU32 {
    #[verifier::type_invariant]
    spec fn above_zero(self) -> bool {
        self.value > 0
    }

    /// The number, where it is above zero.
    pub fn new(value: u32) -> (r: Option<NonZeroU32>)
        ensures
            match r {
                Some(n) => value > 0 && n@ == value,
                None => value == 0,
            },
    {
        if value > 0 {
            Some(NonZeroU32 { value })
        } else {
            None
        }
    }

    /// The number itself.
    pub fn get(&self) -> (r: u32)
        ensures
            r == self@,
            r > 0,
    {
        proof {
            use_type_invariant(self);
        }
        self.value
    }
}

impl NonZeroU64 {
    #[verifier::type_invariant]
    spec fn above_zero(self) -> bool {
        self.value > 0
    }

    /// The number, where it is above zero.
    pub fn new(value: u64) -> (r: Option<NonZeroU64>)
        ensures
            match r {
                Some(n) => value > 0 && n@ == value,
                None => value == 0,
            },
    {
        if value > 0 {
            Some(NonZeroU64 { value })
        } else {
            None
        }
    }

    /// The number itself.
    pub fn get(&self) -> (r: u64)
        ensures
            r == self@,
            r > 0,
    {
        proof {
            use_type_invariant(self);
        }
        self.value
    }
}

}
