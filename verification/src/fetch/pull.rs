//! The archive-pull routes as a client: what is asked for, and what an answer comes to. There is
//! only a request and what came back.

use vstd::prelude::*;

use crate::count::NonZeroU64;
use crate::outside;
use crate::percent;
use crate::server::developer;
use crate::text;
use crate::wire::attestation::Attestation;
use crate::wire::http;
use crate::wire::http::{
    AFTER_FIELD,
    KEY_FIELD,
    OBJECT_PATH,
    PREFIX_FIELD,
    SUBMISSIONS_PATH,
};

verus! {

/// The most an object's declared length may reserve before its body arrives. Not a limit on the
/// object; this is how much of a stranger's arithmetic the process acts on in advance.
pub const PREALLOCATED_MAX: u64 = 1_048_576;

/// One object as it came back: the bytes to write, and the pair that says whose they are where
/// the archive held it.
#[derive(Debug)]
pub struct Object {
    pub bytes: Vec<u8>,
    pub attestation: Option<Attestation>,
}

/// The archive behind one server and one account.
#[derive(Debug)]
pub struct Archive {
    /// The server as given, with no trailing slash, so a route appends to it.
    pub server: String,
    /// `Basic <base64>`, built once. Held rather than the password, because this is the only form
    /// it goes out in.
    pub authorization: String,
}

/// Why a request came to nothing.
#[derive(Debug)]
pub enum PullError {
    Unreachable { url: String, reason: String },
    /// A status the server chose. The reason is its own body, which is what says whether the
    /// credential, the route or the key was the problem.
    Refused { url: String, status: u16, reason: String },
    UnreadableListing { url: String, reason: String },
    /// Refused rather than read to the end: a body of unknown length cannot be told from one cut
    /// short.
    NoLength { key: String },
    Short { key: String, read: u64, length: u64 },
    /// Refused before a byte is read. Checking an object means holding it, so this is the bound
    /// on what one download may cost.
    Oversized { key: String, length: u64, max: u64 },
    Unread { key: String, reason: String },
}

/// What a `PullError` is, over plain values.
pub enum PullFault {
    Unreachable { url: Seq<char>, reason: Seq<char> },
    Refused { url: Seq<char>, status: u16, reason: Seq<char> },
    UnreadableListing { url: Seq<char>, reason: Seq<char> },
    NoLength { key: Seq<char> },
    Short { key: Seq<char>, read: int, length: int },
    Oversized { key: Seq<char>, length: int, max: int },
    Unread { key: Seq<char>, reason: Seq<char> },
}

impl View for PullError {
    type V = PullFault;

    open spec fn view(&self) -> PullFault {
        match *self {
            PullError::Unreachable { url, reason } => PullFault::Unreachable {
                url: url@,
                reason: reason@,
            },
            PullError::Refused { url, status, reason } => PullFault::Refused {
                url: url@,
                status,
                reason: reason@,
            },
            PullError::UnreadableListing { url, reason } => PullFault::UnreadableListing {
                url: url@,
                reason: reason@,
            },
            PullError::NoLength { key } => PullFault::NoLength { key: key@ },
            PullError::Short { key, read, length } => PullFault::Short {
                key: key@,
                read: read as int,
                length: length as int,
            },
            PullError::Oversized { key, length, max } => PullFault::Oversized {
                key: key@,
                length: length as int,
                max: max as int,
            },
            PullError::Unread { key, reason } => PullFault::Unread { key: key@, reason: reason@ },
        }
    }
}

impl PullFault {
    /// What an operator reads.
    pub open spec fn spelled(self) -> Seq<char> {
        match self {
            PullFault::Unreachable { url, reason } => url + " could not be reached: "@ + reason,
            PullFault::Refused { url, status, reason } => url + " answered "@ + text::decimal(
                status as int,
            ) + ": "@ + reason,
            PullFault::UnreadableListing { url, reason } => "the listing from "@ + url
                + " does not parse: "@ + reason,
            PullFault::NoLength { key } => "the download of "@ + key + " states no length"@,
            PullFault::Short { key, read, length } => "the download of "@ + key + " ended after "@
                + text::decimal(read) + " of the "@ + text::decimal(length)
                + " bytes it declared"@,
            PullFault::Oversized { key, length, max } => key + " declares "@ + text::decimal(length)
                + " bytes, over the "@ + text::decimal(max)
                + " byte limit this run will hold to check"@,
            PullFault::Unread { key, reason } => "the download of "@ + key + " did not read: "@
                + reason,
        }
    }
}

impl PullError {
    /// What an operator reads.
    pub fn message(&self) -> (r: String)
        ensures
            r@ == self@.spelled(),
    {
        match self {
            PullError::Unreachable { url, reason } => {
                let mut r = url.clone();
                r.append(" could not be reached: ");
                r.append(reason.as_str());
                r
            },
            PullError::Refused { url, status, reason } => {
                let mut r = url.clone();
                r.append(" answered ");
                r.append(text::decimal_of(*status as u128).as_str());
                r.append(": ");
                r.append(reason.as_str());
                r
            },
            PullError::UnreadableListing { url, reason } => {
                let mut r = String::from_str("the listing from ");
                r.append(url.as_str());
                r.append(" does not parse: ");
                r.append(reason.as_str());
                r
            },
            PullError::NoLength { key } => {
                let mut r = String::from_str("the download of ");
                r.append(key.as_str());
                r.append(" states no length");
                r
            },
            PullError::Short { key, read, length } => {
                let mut r = String::from_str("the download of ");
                r.append(key.as_str());
                r.append(" ended after ");
                r.append(text::decimal_of(*read as u128).as_str());
                r.append(" of the ");
                r.append(text::decimal_of(*length as u128).as_str());
                r.append(" bytes it declared");
                r
            },
            PullError::Oversized { key, length, max } => {
                let mut r = key.clone();
                r.append(" declares ");
                r.append(text::decimal_of(*length as u128).as_str());
                r.append(" bytes, over the ");
                r.append(text::decimal_of(*max as u128).as_str());
                r.append(" byte limit this run will hold to check");
                r
            },
            PullError::Unread { key, reason } => {
                let mut r = String::from_str("the download of ");
                r.append(key.as_str());
                r.append(" did not read: ");
                r.append(reason.as_str());
                r
            },
        }
    }
}

/// What an account's requests carry: `Basic` and the base64 of `user:password`.
pub open spec fn authorization_of(user: Seq<char>, password: Seq<char>) -> Seq<char> {
    "Basic "@ + outside::base64_text(vstd::utf8::encode_utf8(user + seq![':'] + password))
}

impl Archive {
    /// The archive behind a server, read with one account. What its requests carry presents that
    /// account to a server.
    pub fn new(server: &str, user: &str, password: &str) -> (r: Archive)
        ensures
            r.server@ == text::without_trailing(server@, '/'),
            r.authorization@ == authorization_of(user@, password@),
            developer::username_fault(user@) is None ==> developer::presented(r.authorization@)
                == Ok::<(Seq<char>, Seq<char>), developer::Denial>(
                (user@, developer::credential(user@, password@)),
            ),
    {
        let mut credential = String::from_str(user);
        credential.push(':');
        credential.append(password);
        assert(credential@ =~= user@ + seq![':'] + password@);
        let mut authorization = String::from_str("Basic ");
        let encoded = outside::base64_encode(credential.as_str().as_bytes());
        authorization.append(encoded.as_str());
        proof {
            if developer::username_fault(user@) is None {
                developer::basic_header_presents(user@, password@, encoded@);
            }
        }
        Archive { server: text::trim_end_char(server, '/'), authorization }
    }

    /// Where one page of the keys under `prefix` that sort after `after` is asked for. `after`
    /// empty is the archive's start.
    pub fn page_url(&self, prefix: &str, after: &str) -> (r: String)
        ensures
            r@ == self.server@ + http::listing_target(prefix@, after@),
    {
        let mut r = self.server.clone();
        r.append(SUBMISSIONS_PATH);
        r.push('?');
        r.append(PREFIX_FIELD);
        r.push('=');
        r.append(percent::escaped(prefix).as_str());
        r.push('&');
        r.append(AFTER_FIELD);
        r.push('=');
        r.append(percent::escaped(after).as_str());
        assert(r@ =~= self.server@ + http::listing_target(prefix@, after@));
        r
    }

    /// Where one object is asked for.
    pub fn object_url(&self, key: &str) -> (r: String)
        ensures
            r@ == self.server@ + http::object_target(key@),
    {
        let mut r = self.server.clone();
        r.append(OBJECT_PATH);
        r.push('?');
        r.append(KEY_FIELD);
        r.push('=');
        r.append(percent::escaped(key).as_str());
        assert(r@ =~= self.server@ + http::object_target(key@));
        r
    }
}

/// A status taken as the answer it is: anything but success is a refusal.
pub fn answered(url: &str, status: u16, body: &str) -> (r: Result<(), PullError>)
    ensures
        match r {
            Ok(()) => http::is_success(status),
            Err(error) => !http::is_success(status) && error@ == (PullFault::Refused {
                url: url@,
                status,
                reason: body@,
            }),
        },
{
    if 200 <= status && status <= 299 {
        Ok(())
    } else {
        Err(
            PullError::Refused {
                url: String::from_str(url),
                status,
                reason: String::from_str(body),
            },
        )
    }
}

/// What an object's declared length comes to before a byte of it is read.
pub open spec fn length_taken(key: Seq<char>, length: Option<u64>, max: int) -> Result<u64, PullFault> {
    match length {
        None => Err(PullFault::NoLength { key }),
        Some(length) => if length > max {
            Err(PullFault::Oversized { key, length: length as int, max })
        } else {
            Ok(length)
        },
    }
}

/// What an object's declared length comes to before a byte of it is read: how many bytes the
/// download has to bring, and how many to reserve for them.
pub fn take_length(key: &str, length: Option<u64>, max_object_bytes: NonZeroU64) -> (r: Result<
    (u64, u64),
    PullError,
>)
    ensures
        match r {
            Ok((length_owed, reserved)) => length_taken(key@, length, max_object_bytes@) == Ok::<
                u64,
                PullFault,
            >(length_owed) && reserved <= PREALLOCATED_MAX && reserved <= length_owed && (reserved
                == length_owed || reserved == PREALLOCATED_MAX),
            Err(error) => length_taken(key@, length, max_object_bytes@) == Err::<u64, PullFault>(
                error@,
            ),
        },
{
    match length {
        None => Err(PullError::NoLength { key: String::from_str(key) }),
        Some(length) => {
            let max: u64 = max_object_bytes.get();
            if length > max {
                return Err(PullError::Oversized { key: String::from_str(key), length, max });
            }
            if length < PREALLOCATED_MAX {
                Ok((length, length))
            } else {
                Ok((length, PREALLOCATED_MAX))
            }
        },
    }
}

/// One object, verbatim. The count is checked against the length the server declared: a download
/// cut short must not be written down as the object.
pub fn whole(key: &str, length: u64, bytes: Vec<u8>, attestation: Option<Attestation>) -> (r:
    Result<Object, PullError>)
    ensures
        match r {
            Ok(object) => bytes@.len() == length && object.bytes@ == bytes@ && object.attestation
                == attestation,
            Err(error) => bytes@.len() != length && error@ == (PullFault::Short {
                key: key@,
                read: bytes@.len() as int,
                length: length as int,
            }),
        },
{
    let read: u64 = bytes.len() as u64;
    if read == length {
        Ok(Object { bytes, attestation })
    } else {
        Err(PullError::Short { key: String::from_str(key), read, length })
    }
}

/// A download is taken on by its declared length alone: one is needed, the bound itself is still
/// within the bound, and a longer one is refused with both numbers. What a lower bound takes, a
/// higher one does.
pub proof fn a_length_up_to_the_bound_is_taken(
    key: Seq<char>,
    length: u64,
    max: int,
    more: int,
)
    ensures
        length_taken(key, None, max) == Err::<u64, PullFault>(PullFault::NoLength { key }),
        length_taken(key, Some(length), length as int) == Ok::<u64, PullFault>(length),
        length_taken(key, Some(length), length - 1) == Err::<u64, PullFault>(
            PullFault::Oversized { key, length: length as int, max: length - 1 },
        ),
        length_taken(key, Some(length), max) is Ok && max <= more ==> length_taken(
            key,
            Some(length),
            more,
        ) == Ok::<u64, PullFault>(length),
        length_taken(key, Some(length), max) is Ok <==> length <= max,
{
}

/// An object is kept exactly where as many bytes came as were declared: one that came short and one
/// that ran over are refused alike. What is kept is what came.
pub proof fn only_a_whole_object_is_kept(
    key: &str,
    length: u64,
    bytes: Vec<u8>,
    attestation: Option<Attestation>,
    given: Result<Object, PullError>,
)
    requires
        call_ensures(whole, (key, length, bytes, attestation), given),
    ensures
        given is Ok <==> bytes@.len() == length,
        given matches Ok(object) ==> object.bytes@ == bytes@ && object.attestation == attestation,
{
}

/// A request succeeded exactly where it was answered with one of the two hundreds.
pub proof fn only_a_success_is_one(url: &str, status: u16, body: &str, given: Result<(), PullError>)
    requires
        call_ensures(answered, (url, status, body), given),
    ensures
        given is Ok <==> status / 100 == 2,
{
}

}
