//! The code a pool was onboarded against, as the allowlist holds it.

use vstd::prelude::*;

use crate::outside;
use crate::table::Table;
use crate::text;

verus! {

/// Where a pool registration carries its application code.
pub const METADATA_LABEL: i64 = 674;

pub const METADATA_KEY: &'static str = "musashinet_incentives_application_code";

/// The code an operator applies with and registers with. Constrained to an identifier alphabet so
/// it is a bare TOML string wherever it is emitted, and trimmed on the way in because a form
/// export carries the white space around what was pasted into it.
#[derive(Debug, PartialEq, Eq, PartialOrd, Ord, Hash)]
pub struct ApplicationCode {
    code: String,
}

/// Why a text is no application code.
#[derive(Debug)]
pub enum ApplicationCodeError {
    Empty,
    NotAnIdentifier { found: String },
}

/// One code per pool, which is what the allowlist is.
pub type Codes = Table<ApplicationCode>;

/// Whether a character is an ASCII letter or digit.
pub open spec fn alphanumeric(c: char) -> bool {
    'a' <= c <= 'z' || 'A' <= c <= 'Z' || '0' <= c <= '9'
}

/// Whether a character may stand in a code.
pub open spec fn code_char(c: char) -> bool {
    alphanumeric(c) || c == '-' || c == '_' || c == '.'
}

/// Whether a text is a code.
pub open spec fn is_code(s: Seq<char>) -> bool {
    s.len() > 0 && forall|i: int| 0 <= i < s.len() ==> code_char(#[trigger] s[i])
}

/// Whether a character is an ASCII letter or digit.
pub fn is_alphanumeric(c: char) -> (r: bool)
    ensures
        r == alphanumeric(c),
{
    ('a' <= c && c <= 'z') || ('A' <= c && c <= 'Z') || ('0' <= c && c <= '9')
}

impl View for ApplicationCode {
    type V = Seq<char>;

    closed spec fn view(&self) -> Seq<char> {
        self.code@
    }
}

impl Clone for ApplicationCode {
    fn clone(&self) -> (r: Self)
        ensures
            r@ == self@,
    {
        proof {
            use_type_invariant(self);
        }
        ApplicationCode { code: self.code.clone() }
    }
}

impl ApplicationCodeError {
    /// What an operator reads.
    pub open spec fn spelled(self) -> Seq<char> {
        match self {
            ApplicationCodeError::Empty => "an application code cannot be empty"@,
            ApplicationCodeError::NotAnIdentifier { found } => outside::quoted(found@)
                + " is not an application code: letters, digits, '-', '_' and '.' only"@,
        }
    }

    /// What an operator reads.
    pub fn message(&self) -> (r: String)
        ensures
            r@ == self.spelled(),
    {
        match self {
            ApplicationCodeError::Empty => String::from_str("an application code cannot be empty"),
            ApplicationCodeError::NotAnIdentifier { found } => {
                let mut r = outside::quote(found.as_str());
                r.append(" is not an application code: letters, digits, '-', '_' and '.' only");
                r
            },
        }
    }
}

impl ApplicationCode {
    #[verifier::type_invariant]
    spec fn well_formed(self) -> bool {
        is_code(self.code@)
    }

    /// The code a text is, white space around it aside.
    pub fn parse(s: &str) -> (r: Result<ApplicationCode, ApplicationCodeError>)
        ensures
            match r {
                Ok(code) => is_code(text::trimmed(s@)) && code@ == text::trimmed(s@),
                Err(ApplicationCodeError::Empty) => text::trimmed(s@).len() == 0,
                Err(ApplicationCodeError::NotAnIdentifier { found }) => text::trimmed(s@).len() > 0
                    && !is_code(text::trimmed(s@)) && found@ == text::trimmed(s@),
            },
    {
        let trimmed = text::trim(s);
        if trimmed.as_str().is_empty() {
            return Err(ApplicationCodeError::Empty);
        }
        let x = text::chars_of(trimmed.as_str());
        for i in 0..x.len()
            invariant
                x@ == trimmed@,
                trimmed@ == text::trimmed(s@),
                trimmed@.len() > 0,
                forall|j: int| 0 <= j < i ==> code_char(#[trigger] trimmed@[j]),
        {
            let c = x[i];
            if !(is_alphanumeric(c) || c == '-' || c == '_' || c == '.') {
                assert(!code_char(trimmed@[i as int]));
                return Err(ApplicationCodeError::NotAnIdentifier { found: trimmed });
            }
        }
        Ok(ApplicationCode { code: trimmed })
    }

    /// The code itself.
    pub fn as_str(&self) -> (r: &str)
        ensures
            r@ == self@,
            is_code(r@),
    {
        proof {
            use_type_invariant(self);
        }
        self.code.as_str()
    }
}

/// A code is made of letters, digits, dashes, underscores and dots, and of at least one of them.
pub proof fn a_code_is_plain(a: Seq<char>, b: Seq<char>, c: char)
    ensures
        is_code(a) && is_code(b) ==> is_code(a + b),
        is_code(seq![c]) <==> 'a' <= c <= 'z' || 'A' <= c <= 'Z' || '0' <= c <= '9' || c == '-' || c
            == '_' || c == '.',
        is_code(a) ==> !a.contains(' ') && !a.contains('"') && !a.contains('/'),
        !is_code(Seq::empty()),
{
    let both = a + b;
    if is_code(a) && is_code(b) {
        assert forall|i: int| 0 <= i < both.len() implies code_char(#[trigger] both[i]) by {
            if i < a.len() {
                assert(both[i] == a[i]);
            } else {
                assert(both[i] == b[i - a.len()]);
            }
        }
    }
    assert(seq![c][0] == c);
}

}
