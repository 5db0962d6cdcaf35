//! The prefixes by which a journal tells how urgent a line is.

use vstd::prelude::*;

verus! {

/// Something failed.
pub const ERR: &'static str = "<3>";

/// Something an operator should look at.
pub const WARNING: &'static str = "<4>";

/// Something that went as it should.
pub const INFO: &'static str = "<6>";

}
