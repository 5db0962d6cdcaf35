//! The archive-pull routes, as both sides name them.

use vstd::prelude::*;

use crate::percent;

verus! {

/// Where the listing is.
pub const SUBMISSIONS_PATH: &'static str = "/v1/submissions";

/// Where one object is.
pub const OBJECT_PATH: &'static str = "/v1/object";

/// The query field that names an object's key.
pub const KEY_FIELD: &'static str = "key";

/// The query field that carries the literal head of the keys asked for.
pub const PREFIX_FIELD: &'static str = "prefix";

/// The query field that carries the last key of the page before.
pub const AFTER_FIELD: &'static str = "after";

/// One page of an archive's keys.
#[derive(Debug, PartialEq, Eq)]
pub struct Listing {
    pub keys: Vec<String>,
    /// There is more after the last key.
    pub truncated: bool,
}

/// What a listing is asked with: its path and its two fields.
pub open spec fn listing_target(prefix: Seq<char>, after: Seq<char>) -> Seq<char> {
    SUBMISSIONS_PATH@ + seq!['?'] + (PREFIX_FIELD@ + seq!['='] + percent::escaped_text(prefix)
        + seq!['&'] + (AFTER_FIELD@ + seq!['='] + percent::escaped_text(after)))
}

/// What an object is asked with: its path and its key.
pub open spec fn object_target(key: Seq<char>) -> Seq<char> {
    OBJECT_PATH@ + seq!['?'] + (KEY_FIELD@ + seq!['='] + percent::escaped_text(key))
}

/// Whether a status says that the request was answered.
pub open spec fn is_success(status: u16) -> bool {
    200 <= status <= 299
}

/// Whether a status says that asking again may be answered: a redirect or a server's failure,
/// and never what the server refused.
pub open spec fn is_retryable(status: u16) -> bool {
    !is_success(status) && !(400 <= status <= 499)
}

/// A success and a refusal of the request itself are final; anything else may be tried again.
pub proof fn what_may_be_tried_again(status: u16)
    ensures
        is_success(status) ==> !is_retryable(status),
        is_success(status) <==> status / 100 == 2,
        status / 100 == 4 ==> !is_success(status) && !is_retryable(status),
        status / 100 != 2 && status / 100 != 4 ==> is_retryable(status),
{
}

}
