//! Which of a pool's agents a submission is from.

use vstd::prelude::*;

use crate::outside;
use crate::text;

verus! {

/// The name of one agent: lower-case letters, digits and `-`.
#[derive(Debug, PartialEq, Eq)]
pub struct AgentId {
    slug: String,
}

/// A text that names no agent.
#[derive(Debug)]
pub struct AgentIdError {
    pub found: String,
}

/// Whether a character may stand in an agent's name.
pub open spec fn slug_char(c: char) -> bool {
    'a' <= c <= 'z' || '0' <= c <= '9' || c == '-'
}

/// Whether a text names an agent.
pub open spec fn is_slug(s: Seq<char>) -> bool {
    s.len() > 0 && forall|i: int| 0 <= i < s.len() ==> slug_char(#[trigger] s[i])
}

/// What is said of a text that names no agent.
pub open spec fn agent_fault_text(found: Seq<char>) -> Seq<char> {
    outside::quoted(found) + " is not an agent id: lower-case letters, digits and dashes"@
}

impl View for AgentId {
    type V = Seq<char>;

    closed spec fn view(&self) -> Seq<char> {
        self.slug@
    }
}

impl AgentIdError {
    /// What is said of the text.
    pub fn message(&self) -> (r: String)
        ensures
            r@ == agent_fault_text(self.found@),
    {
        let mut r = outside::quote(self.found.as_str());
        r.append(" is not an agent id: lower-case letters, digits and dashes");
        r
    }
}

impl AgentId {
    #[verifier::type_invariant]
    spec fn well_formed(self) -> bool {
        is_slug(self.slug@)
    }

    /// The name itself.
    pub fn as_str(&self) -> (r: &str)
        ensures
            r@ == self@,
            is_slug(self@),
    {
        proof {
            use_type_invariant(self);
        }
        self.slug.as_str()
    }

    /// The agent a text names.
    pub fn parse(s: &str) -> (r: Result<AgentId, AgentIdError>)
        ensures
            match r {
                Ok(agent) => is_slug(s@) && agent@ == s@,
                Err(error) => !is_slug(s@) && error.found@ == s@,
            },
    {
        let x = text::chars_of(s);
        let mut good: bool = x.len() > 0;
        for i in 0..x.len()
            invariant
                x@ == s@,
                good == (x@.len() > 0 && forall|j: int|
                    0 <= j < i ==> slug_char(#[trigger] s@[j])),
        {
            let c = x[i];
            if !(('a' <= c && c <= 'z') || ('0' <= c && c <= '9') || c == '-') {
                assert(!slug_char(s@[i as int]));
                good = false;
            }
        }
        if good {
            Ok(AgentId { slug: String::from_str(s) })
        } else {
            Err(AgentIdError { found: String::from_str(s) })
        }
    }

    /// Whether two names are the same.
    pub fn same(&self, other: &AgentId) -> (r: bool)
        ensures
            r == (self@ == other@),
    {
        text::same(self.slug.as_str(), other.slug.as_str())
    }
}

impl Clone for AgentId {
    fn clone(&self) -> (r: Self)
        ensures
            r@ == self@,
    {
        proof {
            use_type_invariant(self);
        }
        AgentId { slug: self.slug.clone() }
    }
}

/// A slug is made of lower-case letters, digits and dashes: it holds nothing that separates the
/// parts of a path, and two slugs with a dash between them are one.
pub proof fn slugs_join(a: Seq<char>, b: Seq<char>, c: char)
    ensures
        is_slug(a) && is_slug(b) ==> is_slug(a + seq!['-'] + b),
        is_slug(seq![c]) <==> 'a' <= c <= 'z' || '0' <= c <= '9' || c == '-',
        is_slug(a) ==> !a.contains('/') && !a.contains('.') && !a.contains('_') && !a.contains(' '),
        is_slug(a) && 'A' <= c <= 'Z' ==> !a.contains(c),
        !is_slug(Seq::empty()),
{
    let both = a + seq!['-'] + b;
    if is_slug(a) && is_slug(b) {
        assert forall|i: int| 0 <= i < both.len() implies slug_char(#[trigger] both[i]) by {
            if i < a.len() {
                assert(both[i] == a[i]);
            } else if i > a.len() {
                assert(both[i] == b[i - a.len() - 1]);
            }
        }
    }
    assert(seq![c][0] == c);
}

}
