//! Developer pull access to the archive: an account per developer, a listing, and objects handed
//! back untransformed.
//!
//! The accounts are the secret's contents rather than the config's, so what an operator publishes
//! names none of them and revoking one person is an edit to one line of one encrypted file. What a
//! credential decides is who may pull the corpus, not whether it can be trusted: the bytes it
//! guards are self-verifying.

use vstd::prelude::*;
use vstd::utf8;

use crate::count::NonZeroU32;
use crate::key::KEY_PREFIX;
use crate::outside;
use crate::percent;
use crate::server::archive::Page;
use crate::server::config::DeveloperConfig;
use crate::table::Table;
use crate::text;
use crate::wire::http;
use crate::wire::http::{AFTER_FIELD, PREFIX_FIELD};

verus! {

/// The realm a 401 names. Fixed: an operator changing it would only change what a browser's prompt
/// says.
pub const REALM: &'static str = "metsuke archive";

/// Keys one upstream listing request answers with, which is S3's cap and so this server's. A
/// listing request is one upstream request, so a bound above it would report a page as the whole
/// archive.
pub const LIST_MAX_ROWS_CAP: u32 = 1000;

/// How long a username may be. It bounds what a refusal can put in the journal, and it refuses no
/// credential that would have worked: an account this long cannot be configured either, because
/// the same parse reads both sides.
pub const USERNAME_MAX_CHARS: usize = 64;

/// A developer account's name: letters, digits, `-` and `_`, which is exactly what a TOML bare key
/// holds, so no name an operator picks has to be quoted in the secret. Case is kept, and it is
/// matched byte for byte because the digest is over the bytes.
///
/// Parsed rather than folded: a username arrives in a header from anyone, and what a refusal puts
/// in the journal has to be something a parse already accepted. It excludes `:`, which Basic makes
/// the separator, so no account can be named something a Basic header could not carry.
#[derive(Debug, PartialEq, Eq)]
pub struct Username {
    name: String,
}

/// Why a text is no username.
#[derive(Debug)]
#[allow(inconsistent_fields)]
pub enum UsernameError {
    Empty,
    NotAUsername { found: String },
    TooLong { found: usize },
}

/// What a `UsernameError` is, over plain values.
pub enum UsernameFault {
    Empty,
    NotAUsername { name: Seq<char> },
    TooLong { found: int },
}

impl View for Username {
    type V = Seq<char>;

    closed spec fn view(&self) -> Seq<char> {
        self.name@
    }
}

impl View for UsernameError {
    type V = UsernameFault;

    open spec fn view(&self) -> UsernameFault {
        match *self {
            UsernameError::Empty => UsernameFault::Empty,
            UsernameError::NotAUsername { found } => UsernameFault::NotAUsername { name: found@ },
            UsernameError::TooLong { found } => UsernameFault::TooLong { found: found as int },
        }
    }
}

impl UsernameFault {
    /// What an operator reads.
    pub open spec fn spelled(self) -> Seq<char> {
        match self {
            UsernameFault::Empty => "a username cannot be empty"@,
            UsernameFault::NotAUsername { name } => outside::quoted(name)
                + " is not a username: letters, digits, '-' and '_' only"@,
            UsernameFault::TooLong { found } => "a username is at most "@ + text::decimal(
                USERNAME_MAX_CHARS as int,
            ) + " characters, and this one is "@ + text::decimal(found),
        }
    }
}

impl UsernameError {
    /// What an operator reads.
    pub fn message(&self) -> (r: String)
        ensures
            r@ == self@.spelled(),
    {
        match self {
            UsernameError::Empty => String::from_str("a username cannot be empty"),
            UsernameError::NotAUsername { found } => {
                let mut r = outside::quote(found.as_str());
                r.append(" is not a username: letters, digits, '-' and '_' only");
                r
            },
            UsernameError::TooLong { found } => {
                let mut r = String::from_str("a username is at most ");
                r.append(text::decimal_of(USERNAME_MAX_CHARS as u128).as_str());
                r.append(" characters, and this one is ");
                r.append(text::decimal_of(*found as u128).as_str());
                r
            },
        }
    }
}

/// A character that a username may hold.
pub open spec fn name_char(c: char) -> bool {
    'a' <= c <= 'z' || 'A' <= c <= 'Z' || '0' <= c <= '9' || c == '-' || c == '_'
}

/// What keeps a text from being a username, if anything.
pub open spec fn username_fault(s: Seq<char>) -> Option<UsernameFault> {
    if s.len() == 0 {
        Some(UsernameFault::Empty)
    } else if s.len() > USERNAME_MAX_CHARS {
        Some(UsernameFault::TooLong { found: s.len() as int })
    } else if exists|i: int| 0 <= i < s.len() && !name_char(#[trigger] s[i]) {
        Some(UsernameFault::NotAUsername { name: s })
    } else {
        None
    }
}

impl Username {
    #[verifier::type_invariant]
    spec fn well_formed(self) -> bool {
        username_fault(self.name@) is None
    }

    /// The username that a text is.
    pub fn parse(s: &str) -> (r: Result<Username, UsernameError>)
        ensures
            match r {
                Ok(user) => username_fault(s@) is None && user@ == s@,
                Err(error) => username_fault(s@) == Some(error@),
            },
    {
        let chars = text::chars_of(s);
        if chars.len() == 0 {
            return Err(UsernameError::Empty);
        }
        if chars.len() > USERNAME_MAX_CHARS {
            return Err(UsernameError::TooLong { found: chars.len() });
        }
        for i in 0..chars.len()
            invariant
                chars@ == s@,
                0 < s@.len() <= USERNAME_MAX_CHARS,
                forall|j: int| 0 <= j < i ==> name_char(#[trigger] s@[j]),
        {
            let c = chars[i];
            if !(('a' <= c && c <= 'z') || ('A' <= c && c <= 'Z') || ('0' <= c && c <= '9') || c
                == '-' || c == '_') {
                assert(!name_char(s@[i as int]));
                return Err(UsernameError::NotAUsername { found: String::from_str(s) });
            }
        }
        Ok(Username { name: String::from_str(s) })
    }

    /// The name itself.
    pub fn as_str(&self) -> (r: &str)
        ensures
            r@ == self@,
            username_fault(r@) is None,
    {
        proof {
            use_type_invariant(self);
        }
        self.name.as_str()
    }
}

impl Clone for Username {
    fn clone(&self) -> (r: Self)
        ensures
            r@ == self@,
    {
        proof {
            use_type_invariant(self);
        }
        Username { name: self.name.clone() }
    }
}

/// Every account the secret names, each under the digest of the credential it presents. The
/// passwords are not held: a heap dump of a serving process carries none of them.
pub struct Accounts {
    by_digest: Table<Username>,
}

/// Why a secret file names no usable set of accounts. Each is a startup failure: the routes would
/// otherwise be open on something nobody set, or closed to everybody the operator meant to let in.
#[derive(Debug)]
pub enum AccountsError {
    NotATable(String),
    Empty,
    Username { source: UsernameError },
    EmptyPassword { user: Username },
}

/// What an `AccountsError` is, over plain values.
pub enum AccountsFault {
    NotATable(Seq<char>),
    Empty,
    Username { source: UsernameFault },
    EmptyPassword { user: Seq<char> },
}

impl View for AccountsError {
    type V = AccountsFault;

    open spec fn view(&self) -> AccountsFault {
        match *self {
            AccountsError::NotATable(reason) => AccountsFault::NotATable(reason@),
            AccountsError::Empty => AccountsFault::Empty,
            AccountsError::Username { source } => AccountsFault::Username { source: source@ },
            AccountsError::EmptyPassword { user } => AccountsFault::EmptyPassword { user: user@ },
        }
    }
}

impl AccountsFault {
    /// What an operator reads.
    pub open spec fn spelled(self) -> Seq<char> {
        match self {
            AccountsFault::NotATable(reason) =>
                "does not parse as a table of username to password: "@ + reason,
            AccountsFault::Empty => "names no accounts, so nothing could read the archive"@,
            AccountsFault::Username { source } => "names an unusable account: "@ + source.spelled(),
            AccountsFault::EmptyPassword { user } => "gives "@ + user
                + " an empty password, which would authorize anyone naming that user"@,
        }
    }
}

impl AccountsError {
    /// What an operator reads.
    pub fn message(&self) -> (r: String)
        ensures
            r@ == self@.spelled(),
    {
        match self {
            AccountsError::NotATable(reason) => {
                let mut r = String::from_str(
                    "does not parse as a table of username to password: ",
                );
                r.append(reason.as_str());
                r
            },
            AccountsError::Empty => String::from_str(
                "names no accounts, so nothing could read the archive",
            ),
            AccountsError::Username { source } => {
                let mut r = String::from_str("names an unusable account: ");
                r.append(source.message().as_str());
                r
            },
            AccountsError::EmptyPassword { user } => {
                let mut r = String::from_str("gives ");
                r.append(user.as_str());
                r.append(" an empty password, which would authorize anyone naming that user");
                r
            },
        }
    }
}

/// The byte string Basic carries for a user and a password, as text.
pub open spec fn credential(user: Seq<char>, password: Seq<char>) -> Seq<char> {
    user + seq![':'] + password
}

/// The digest of a credential. Comparing digests rather than the secrets is what keeps the
/// compare's timing independent of how much of the password matched: the bytes it does compare are
/// a hash's, and reveal nothing about their input.
pub open spec fn digest_of(presented: Seq<char>) -> Seq<u8> {
    outside::blake2b256(utf8::encode_utf8(presented))
}

/// The accounts that written entries make, or the first entry that makes none and why.
pub open spec fn enrolled(written: Seq<(Seq<char>, Seq<char>)>) -> Result<
    Map<Seq<u8>, Seq<char>>,
    AccountsFault,
>
    decreases written.len(),
{
    if written.len() == 0 {
        Ok(Map::empty())
    } else {
        match enrolled(written.drop_last()) {
            Err(fault) => Err(fault),
            Ok(before) => {
                let (user, password) = written.last();
                match username_fault(user) {
                    Some(source) => Err(AccountsFault::Username { source }),
                    None => if password.len() == 0 {
                        Err(AccountsFault::EmptyPassword { user })
                    } else {
                        Ok(before.insert(digest_of(credential(user, password)), user))
                    },
                }
            },
        }
    }
}

/// The accounts that a secret makes, or why it makes none.
pub open spec fn accounts_of(
    written: Result<Seq<(Seq<char>, Seq<char>)>, Seq<char>>,
) -> Result<Map<Seq<u8>, Seq<char>>, AccountsFault> {
    match written {
        Err(reason) => Err(AccountsFault::NotATable(reason)),
        Ok(written) => if written.len() == 0 {
            Err(AccountsFault::Empty)
        } else {
            enrolled(written)
        },
    }
}

proof fn lemma_fault_stays(written: Seq<(Seq<char>, Seq<char>)>, i: int)
    requires
        0 <= i <= written.len(),
        enrolled(written.take(i)) is Err,
    ensures
        enrolled(written) == enrolled(written.take(i)),
    decreases written.len() - i,
{
    if i < written.len() {
        assert(written.take(i + 1).drop_last() =~= written.take(i));
        lemma_fault_stays(written, i + 1);
    } else {
        assert(written.take(i) =~= written);
    }
}

/// Whoever the secret names may pull with the password it gives.
pub proof fn who_is_written_may_pull(written: Seq<(Seq<char>, Seq<char>)>, i: int)
    requires
        0 <= i < written.len(),
        enrolled(written) is Ok,
    ensures
        enrolled(written)->Ok_0.contains_key(
            digest_of(credential(written[i].0, written[i].1)),
        ),
    decreases written.len(),
{
    if i < written.len() - 1 {
        who_is_written_may_pull(written.drop_last(), i);
    }
}

/// Nothing that was not written may: every account is the digest of a credential the secret holds,
/// under a name that it gives, with a password that is not empty.
pub proof fn who_may_pull_is_written(written: Seq<(Seq<char>, Seq<char>)>, digest: Seq<u8>)
    requires
        enrolled(written) is Ok,
        enrolled(written)->Ok_0.contains_key(digest),
    ensures
        exists|i: int|
            0 <= i < written.len() && digest == digest_of(
                credential((#[trigger] written[i]).0, written[i].1),
            ) && written[i].1.len() > 0 && enrolled(written)->Ok_0[digest] == written[i].0,
    decreases written.len(),
{
    let (user, password) = written.last();
    let last = written.len() - 1;
    if digest == digest_of(credential(user, password)) {
        assert(written[last].0 == user && written[last].1 == password);
    } else {
        let rest = written.drop_last();
        who_may_pull_is_written(rest, digest);
        let i = choose|i: int|
            0 <= i < rest.len() && digest == digest_of(
                credential((#[trigger] rest[i]).0, rest[i].1),
            ) && rest[i].1.len() > 0 && enrolled(rest)->Ok_0[digest] == rest[i].0;
        assert(written[i] == rest[i]);
    }
}

/// What a secret file was read as, over plain values.
pub open spec fn written_view(written: Result<Vec<(String, String)>, String>) -> Result<
    Seq<(Seq<char>, Seq<char>)>,
    Seq<char>,
> {
    match written {
        Ok(pairs) => Ok(outside::text_pair_views(pairs@)),
        Err(reason) => Err(reason@),
    }
}

fn digest(presented: &str) -> (r: [u8; 32])
    ensures
        r@ == digest_of(presented@),
{
    outside::blake2b_256(presented.as_bytes())
}

/// Whether there is an account at all.
spec fn names_someone(by_digest: Map<Seq<u8>, Username>) -> bool {
    exists|digest: Seq<u8>| #[trigger] by_digest.contains_key(digest)
}

impl Accounts {
    #[verifier::type_invariant]
    spec fn well_formed(self) -> bool {
        names_someone(self.by_digest@)
    }

    /// The names of the accounts, each under its digest.
    pub closed spec fn named(self) -> Map<Seq<u8>, Seq<char>> {
        self.by_digest@.map_values(|user: Username| user@)
    }

    /// The accounts that a secret makes, once its text was read as a table or could not be.
    pub fn enrol(written: Result<Vec<(String, String)>, String>) -> (r: Result<
        Accounts,
        AccountsError,
    >)
        ensures
            match r {
                Ok(accounts) => accounts_of(written_view(written)) == Ok::<
                    Map<Seq<u8>, Seq<char>>,
                    AccountsFault,
                >(accounts.named()),
                Err(error) => accounts_of(written_view(written)) == Err::<
                    Map<Seq<u8>, Seq<char>>,
                    AccountsFault,
                >(error@),
            },
    {
        let entries = match written {
            Ok(entries) => entries,
            Err(reason) => {
                return Err(AccountsError::NotATable(reason));
            },
        };
        let ghost all = outside::text_pair_views(entries@);
        if entries.len() == 0 {
            return Err(AccountsError::Empty);
        }
        let mut by_digest: Table<Username> = Table::new();
        assert(by_digest@.map_values(|user: Username| user@) =~= Map::empty());
        for i in 0..entries.len()
            invariant
                all == outside::text_pair_views(entries@),
                entries@.len() > 0,
                enrolled(all.take(i as int)) == Ok::<Map<Seq<u8>, Seq<char>>, AccountsFault>(
                    by_digest@.map_values(|user: Username| user@),
                ),
                accounts_of(written_view(written)) == enrolled(all),
        {
            let ghost before = by_digest@;
            assert(all.take(i + 1).drop_last() =~= all.take(i as int));
            assert(all.take(i + 1).last() == (entries@[i as int].0@, entries@[i as int].1@));
            let user = match Username::parse(entries[i].0.as_str()) {
                Ok(user) => user,
                Err(source) => {
                    proof {
                        lemma_fault_stays(all, i + 1);
                    }
                    return Err(AccountsError::Username { source });
                },
            };
            if text::is_empty(entries[i].1.as_str()) {
                proof {
                    lemma_fault_stays(all, i + 1);
                }
                return Err(AccountsError::EmptyPassword { user });
            }
            let mut presented = String::from_str(user.as_str());
            presented.push(':');
            presented.append(entries[i].1.as_str());
            assert(presented@ =~= credential(entries@[i as int].0@, entries@[i as int].1@));
            let key = digest(presented.as_str());
            by_digest.insert(key.as_slice(), user);
            assert(by_digest@.map_values(|user: Username| user@) =~= before.map_values(
                |user: Username| user@,
            ).insert(key@, user@));
        }
        assert(all.take(entries@.len() as int) =~= all);
        proof {
            who_is_written_may_pull(all, 0);
            assert(by_digest@.contains_key(digest_of(credential(all[0].0, all[0].1))));
            assert(names_someone(by_digest@));
        }
        Ok(Accounts { by_digest })
    }

    /// The secret as it is written: one `user = "password"` line each. A TOML string is exact, so
    /// nothing here trims what an operator quoted.
    pub fn parse(secret: &str) -> (r: Result<Accounts, AccountsError>)
        ensures
            match r {
                Ok(accounts) => accounts_of(outside::toml_strings_of(secret@)) == Ok::<
                    Map<Seq<u8>, Seq<char>>,
                    AccountsFault,
                >(accounts.named()),
                Err(error) => accounts_of(outside::toml_strings_of(secret@)) == Err::<
                    Map<Seq<u8>, Seq<char>>,
                    AccountsFault,
                >(error@),
            },
    {
        let written = outside::toml_strings(secret);
        Accounts::enrol(written)
    }

    /// How many accounts may pull, for the operator's startup line. The names are the secret's, so
    /// a count is all a log may say about them. There is always one.
    pub fn count(&self) -> (r: usize)
        ensures
            self.named().dom().finite(),
            r == self.named().dom().len(),
            r > 0,
    {
        let count: usize = self.by_digest.len();
        proof {
            use_type_invariant(self);
            let digest = choose|digest: Seq<u8>| #[trigger] self.by_digest@.contains_key(digest);
            assert(self.by_digest@.dom().contains(digest));
            if count == 0 {
                assert(self.by_digest@.dom() =~= Set::<Seq<u8>>::empty());
            }
        }
        assert(self.named().dom() =~= self.by_digest@.dom());
        count
    }
}

/// Whether no two written entries present credentials of one digest.
pub open spec fn told_apart(written: Seq<(Seq<char>, Seq<char>)>) -> bool {
    forall|i: int, j: int|
        0 <= i < j < written.len() ==> digest_of(
            credential((#[trigger] written[i]).0, written[i].1),
        ) != digest_of(credential((#[trigger] written[j]).0, written[j].1))
}

/// Every entry of a secret is an account of its own where their digests differ, two users with one
/// password among them: there are as many accounts as entries. There are never more, and never
/// none.
pub proof fn every_entry_is_an_account(written: Seq<(Seq<char>, Seq<char>)>)
    requires
        enrolled(written) is Ok,
    ensures
        enrolled(written)->Ok_0.dom().finite(),
        enrolled(written)->Ok_0.dom().len() <= written.len(),
        written.len() > 0 ==> enrolled(written)->Ok_0.dom().len() > 0,
        told_apart(written) ==> enrolled(written)->Ok_0.dom().len() == written.len(),
    decreases written.len(),
{
    if written.len() > 0 {
        let rest = written.drop_last();
        let (user, password) = written.last();
        let digest = digest_of(credential(user, password));
        every_entry_is_an_account(rest);
        let before = enrolled(rest)->Ok_0;
        assert(enrolled(written)->Ok_0.dom() =~= before.dom().insert(digest));
        if told_apart(written) {
            assert forall|i: int, j: int| 0 <= i < j < rest.len() implies digest_of(
                credential((#[trigger] rest[i]).0, rest[i].1),
            ) != digest_of(credential((#[trigger] rest[j]).0, rest[j].1)) by {
                assert(rest[i] == written[i] && rest[j] == written[j]);
            }
            if before.contains_key(digest) {
                who_may_pull_is_written(rest, digest);
                let i = choose|i: int|
                    0 <= i < rest.len() && digest == digest_of(
                        credential((#[trigger] rest[i]).0, rest[i].1),
                    ) && rest[i].1.len() > 0 && enrolled(rest)->Ok_0[digest] == rest[i].0;
                assert(rest[i] == written[i]);
                assert(written[written.len() - 1] == (user, password));
            }
        }
    }
}

/// A request that may not read the archive. The reason is for the operator's log and nothing else.
/// Told which half of the credential was wrong, a client learns whether the user exists, so the
/// caller that answers is what keeps it out of the body.
#[derive(Debug)]
pub struct Unauthorized {
    pub reason: &'static str,
    /// The account the client named, where it named one a parse accepts. A refusal carrying none
    /// is one nothing could attribute.
    pub presented: Option<Username>,
}

/// What an `Unauthorized` is, over plain values.
pub struct Denial {
    pub reason: Seq<char>,
    pub presented: Option<Seq<char>>,
}

impl View for Unauthorized {
    type V = Denial;

    open spec fn view(&self) -> Denial {
        Denial {
            reason: self.reason@,
            presented: match self.presented {
                Some(user) => Some(user@),
                None => None,
            },
        }
    }
}

impl Denial {
    /// What an operator reads.
    pub open spec fn spelled(self) -> Seq<char> {
        match self.presented {
            Some(user) => self.reason + ", presented as "@ + user,
            None => self.reason,
        }
    }
}

impl Unauthorized {
    /// What an operator reads.
    pub fn message(&self) -> (r: String)
        ensures
            r@ == self@.spelled(),
    {
        let mut r = String::from_str(self.reason);
        if let Some(user) = &self.presented {
            r.append(", presented as ");
            r.append(user.as_str());
        }
        r
    }

    fn anonymous(reason: &'static str) -> (r: Unauthorized)
        ensures
            r@ == nobody(reason@),
    {
        Unauthorized { reason, presented: None }
    }
}

/// A refusal that names nobody.
pub open spec fn nobody(reason: Seq<char>) -> Denial {
    Denial { reason, presented: None }
}

/// What a Basic header presents: the account it names, and the `user:password` a digest is taken
/// over.
#[derive(Debug)]
pub struct Presented {
    pub user: Username,
    pub credential: String,
}

/// What the base64 part of a Basic header presents, once it was decoded or could not be. A
/// credential with no colon in it is not a credential: the first colon is the separator, so its
/// absence means the client sent something else. A username the parse refuses is not repeated back
/// to the log.
pub open spec fn presented_by(decoded: Option<Seq<u8>>) -> Result<(Seq<char>, Seq<char>), Denial> {
    match decoded {
        None => Err(nobody("the Basic credential is not base64"@)),
        Some(bytes) => if !utf8::valid_utf8(bytes) {
            Err(nobody("the Basic credential is not UTF-8"@))
        } else {
            let presented = utf8::decode_utf8(bytes);
            match text::halves(presented, ':') {
                None => Err(nobody("the Basic credential holds no colon"@)),
                Some((user, _)) => if username_fault(user) is Some {
                    Err(nobody("the Basic credential names no username"@))
                } else {
                    Ok((user, presented))
                },
            }
        },
    }
}

/// What an authorization header presents: the account, and the credential.
pub open spec fn presented(authorization: Seq<char>) -> Result<(Seq<char>, Seq<char>), Denial> {
    match text::halves(authorization, ' ') {
        None => Err(nobody("the authorization header names no scheme"@)),
        Some((scheme, encoded)) => if !text::alike(scheme, "Basic"@) {
            Err(nobody("the authorization scheme is not Basic"@))
        } else {
            presented_by(outside::base64_bytes(text::trimmed(encoded)))
        },
    }
}

/// What bytes were decoded, over plain values.
pub open spec fn decoded_view(decoded: Option<Vec<u8>>) -> Option<Seq<u8>> {
    match decoded {
        Some(bytes) => Some(bytes@),
        None => None,
    }
}

/// What the base64 part of a Basic header presents: see `presented_by`.
pub fn credential_of(decoded: Option<Vec<u8>>) -> (r: Result<Presented, Unauthorized>)
    ensures
        match r {
            Ok(found) => presented_by(decoded_view(decoded)) == Ok::<
                (Seq<char>, Seq<char>),
                Denial,
            >((found.user@, found.credential@)),
            Err(error) => presented_by(decoded_view(decoded)) == Err::<
                (Seq<char>, Seq<char>),
                Denial,
            >(error@),
        },
{
    let bytes = match decoded {
        Some(bytes) => bytes,
        None => {
            return Err(Unauthorized::anonymous("the Basic credential is not base64"));
        },
    };
    let credential = match outside::text_from_utf8(bytes.as_slice()) {
        Ok(credential) => credential,
        Err(_) => {
            return Err(Unauthorized::anonymous("the Basic credential is not UTF-8"));
        },
    };
    proof {
        utf8::encode_utf8_valid_utf8(credential@);
        utf8::encode_utf8_decode_utf8(credential@);
    }
    match text::split_once(credential.as_str(), ':') {
        None => Err(Unauthorized::anonymous("the Basic credential holds no colon")),
        Some((user, _)) => match Username::parse(user.as_str()) {
            Ok(user) => Ok(Presented { user, credential }),
            Err(_) => Err(Unauthorized::anonymous("the Basic credential names no username")),
        },
    }
}

/// The credential a Basic header carries, or `Unauthorized` for anything that is not one.
pub fn basic_credential(authorization: &str) -> (r: Result<Presented, Unauthorized>)
    ensures
        match r {
            Ok(found) => presented(authorization@) == Ok::<(Seq<char>, Seq<char>), Denial>(
                (found.user@, found.credential@),
            ),
            Err(error) => presented(authorization@) == Err::<(Seq<char>, Seq<char>), Denial>(error@),
        },
{
    match text::split_once(authorization, ' ') {
        None => Err(Unauthorized::anonymous("the authorization header names no scheme")),
        Some((scheme, encoded)) => {
            if !text::same_ignoring_case(scheme.as_str(), "Basic") {
                return Err(Unauthorized::anonymous("the authorization scheme is not Basic"));
            }
            let decoded = outside::base64_decode(text::trim(encoded.as_str()).as_str());
            credential_of(decoded)
        },
    }
}

/// A header that carries a user's credential presents that user and that credential, whatever the
/// password holds.
pub proof fn basic_header_presents(user: Seq<char>, password: Seq<char>, encoded: Seq<char>)
    requires
        username_fault(user) is None,
        outside::base64_bytes(encoded) == Some(utf8::encode_utf8(credential(user, password))),
        forall|i: int| 0 <= i < encoded.len() ==> outside::base64_char(#[trigger] encoded[i]),
    ensures
        presented("Basic "@ + encoded) == Ok::<(Seq<char>, Seq<char>), Denial>(
            (user, credential(user, password)),
        ),
{
    reveal_strlit("Basic ");
    reveal_strlit("Basic");
    let header = "Basic "@ + encoded;
    assert("Basic "@ =~= "Basic"@ + seq![' ']);
    assert(header =~= "Basic"@ + seq![' '] + encoded);
    text::lemma_halves("Basic"@, ' ', encoded);
    if encoded.len() > 0 {
        assert(outside::base64_char(encoded[0]));
        assert(outside::base64_char(encoded[encoded.len() - 1]));
    }
    text::lemma_trimmed_is(encoded);
    let said = credential(user, password);
    utf8::encode_utf8_valid_utf8(said);
    utf8::encode_utf8_decode_utf8(said);
    assert forall|i: int| 0 <= i < user.len() implies #[trigger] user[i] != ':' by {
        assert(name_char(user[i]));
    }
    text::lemma_halves(user, ':', password);
}

/// The refusal of a credential that is no account's: it names the user that was presented.
pub open spec fn not_an_account(user: Seq<char>) -> Denial {
    Denial { reason: "the credential is not an account's"@, presented: Some(user) }
}

/// Who an authorization header may pull as, among named accounts.
pub open spec fn authorized(
    named: Map<Seq<u8>, Seq<char>>,
    authorization: Option<Seq<char>>,
) -> Result<Seq<char>, Denial> {
    match authorization {
        None => Err(nobody("no authorization header"@)),
        Some(authorization) => match presented(authorization) {
            Err(denial) => Err(denial),
            Ok((user, presented)) => if named.contains_key(digest_of(presented)) {
                Ok(named[digest_of(presented)])
            } else {
                Err(not_an_account(user))
            },
        },
    }
}

/// A user whose credential is no account's is refused in the same words whatever the password, and
/// whether that user has an account under another password or none at all: the refusal names the
/// user and nothing else.
pub proof fn wrong_credentials_are_refused_alike(
    named: Map<Seq<u8>, Seq<char>>,
    user: Seq<char>,
    password: Seq<char>,
    encoded: Seq<char>,
)
    requires
        username_fault(user) is None,
        outside::base64_bytes(encoded) == Some(utf8::encode_utf8(credential(user, password))),
        forall|i: int| 0 <= i < encoded.len() ==> outside::base64_char(#[trigger] encoded[i]),
        !named.contains_key(digest_of(credential(user, password))),
    ensures
        authorized(named, Some("Basic "@ + encoded)) == Err::<Seq<char>, Denial>(not_an_account(user)),
        not_an_account(user).spelled() == "the credential is not an account's, presented as "@
            + user,
{
    basic_header_presents(user, password, encoded);
    reveal_strlit("the credential is not an account's");
    reveal_strlit(", presented as ");
    reveal_strlit("the credential is not an account's, presented as ");
    assert("the credential is not an account's, presented as "@
        =~= "the credential is not an account's"@ + ", presented as "@);
}

/// The accounts developer pulls authenticate as, and the listing bound they share.
pub struct Developer {
    accounts: Accounts,
    list_max_rows: NonZeroU32,
}

impl Developer {
    /// The accounts' names, each under its digest.
    pub closed spec fn named(self) -> Map<Seq<u8>, Seq<char>> {
        self.accounts.named()
    }

    /// How many keys the config lets one listing have.
    pub closed spec fn asked_rows(self) -> int {
        self.list_max_rows@
    }

    /// The accounts, with the bound that the config sets.
    pub fn new(config: &DeveloperConfig, accounts: Accounts) -> (r: Developer)
        ensures
            r.named() == accounts.named(),
            r.asked_rows() == config.list_max_rows@,
    {
        Developer { accounts, list_max_rows: config.list_max_rows }
    }

    /// Keys one listing answers with, never more than one upstream page. Clamped rather than
    /// refused at load: the cap is the protocol's, not the operator's, and a config that asks for
    /// more is asking for the most a page can hold.
    pub fn list_max_rows(&self) -> (r: NonZeroU32)
        ensures
            r@ == if self.asked_rows() <= LIST_MAX_ROWS_CAP {
                self.asked_rows()
            } else {
                LIST_MAX_ROWS_CAP as int
            },
    {
        if self.list_max_rows.get() <= LIST_MAX_ROWS_CAP {
            self.list_max_rows
        } else {
            match NonZeroU32::new(LIST_MAX_ROWS_CAP) {
                Some(cap) => cap,
                None => self.list_max_rows,
            }
        }
    }

    /// Which account `authorization` presents the credential of. Everything malformed is refused
    /// exactly as a wrong credential is, and differs only in what the refusal says to the log.
    pub fn authorize(&self, authorization: Option<&str>) -> (r: Result<&Username, Unauthorized>)
        ensures
            match r {
                Ok(user) => authorized(self.named(), text::view_of_str(authorization)) == Ok::<
                    Seq<char>,
                    Denial,
                >(user@),
                Err(error) => authorized(self.named(), text::view_of_str(authorization)) == Err::<
                    Seq<char>,
                    Denial,
                >(error@),
            },
    {
        let header = match authorization {
            Some(header) => header,
            None => {
                return Err(Unauthorized::anonymous("no authorization header"));
            },
        };
        let found = match basic_credential(header) {
            Ok(found) => found,
            Err(error) => {
                return Err(error);
            },
        };
        let key = digest(found.credential.as_str());
        match self.accounts.by_digest.get(key.as_slice()) {
            Some(user) => Ok(user),
            None => Err(
                Unauthorized {
                    reason: "the credential is not an account's",
                    presented: Some(found.user),
                },
            ),
        }
    }
}

/// The two filters a listing request may carry.
#[derive(Debug)]
pub struct Filters {
    /// The literal head of an object key, which is what makes it a day-and-pool filter.
    pub prefix: String,
    /// The last key of the previous page. Empty is the archive's start.
    pub after: String,
}

/// A query this layer will not act on.
#[derive(Debug)]
pub enum BadQuery {
    NotUtf8 { field: &'static str },
}

impl BadQuery {
    /// What a client is told.
    pub open spec fn spelled(self) -> Seq<char> {
        match self {
            BadQuery::NotUtf8 { field } => field@
                + " is not UTF-8 once its percent escapes are decoded"@,
        }
    }

    /// What a client is told.
    pub fn message(&self) -> (r: String)
        ensures
            r@ == self.spelled(),
    {
        match self {
            BadQuery::NotUtf8 { field } => {
                let mut r = String::from_str(field);
                r.append(" is not UTF-8 once its percent escapes are decoded");
                r
            },
        }
    }
}

/// The value of the first of some `name=value` pairs that has a name; a pair without `=` has none.
pub open spec fn value_under(pairs: Seq<Seq<char>>, field: Seq<char>) -> Option<Seq<char>>
    decreases pairs.len(),
{
    if pairs.len() == 0 {
        None
    } else {
        match text::halves(pairs[0], '=') {
            Some((name, value)) if name == field => Some(value),
            _ => value_under(pairs.skip(1), field),
        }
    }
}

/// The query of a request target: what stands behind its first `?`.
pub open spec fn query_of(target: Seq<char>) -> Seq<char> {
    match text::halves(target, '?') {
        Some((_, query)) => query,
        None => Seq::empty(),
    }
}

/// One query field of a request target, percent-decoded, and empty when absent; nothing where what
/// it decodes to is not UTF-8.
pub open spec fn field_of(target: Seq<char>, field: Seq<char>) -> Option<Seq<char>> {
    match value_under(text::pieces(query_of(target), '&'), field) {
        Some(raw) => percent::unescaped_text(raw),
        None => Some(Seq::empty()),
    }
}

/// One query field of a request URL, percent-decoded, empty when absent. The `/` an object key is
/// made of is what a client that builds URLs properly encodes, so decoding is not optional.
pub fn query_value(url: &str, field: &'static str) -> (r: Result<String, BadQuery>)
    ensures
        match r {
            Ok(value) => field_of(url@, field@) == Some(value@),
            Err(error) => field_of(url@, field@) is None && error == (BadQuery::NotUtf8 { field }),
        },
{
    let query = match text::split_once(url, '?') {
        Some((_, query)) => query,
        None => String::new(),
    };
    assert(query@ =~= query_of(url@));
    let pairs = text::split(query.as_str(), '&');
    let ghost all = text::views(pairs@);
    assert(all.skip(0) =~= all);
    for i in 0..pairs.len()
        invariant
            all == text::views(pairs@),
            all == text::pieces(query_of(url@), '&'),
            value_under(all, field@) == value_under(all.skip(i as int), field@),
    {
        let ghost rest = all.skip(i as int);
        assert(rest[0] == pairs@[i as int]@);
        assert(rest.skip(1) =~= all.skip(i + 1));
        if let Some((name, value)) = text::split_once(pairs[i].as_str(), '=') {
            if text::same(name.as_str(), field) {
                return match percent::percent_decoded(value.as_str()) {
                    Some(decoded) => Ok(decoded),
                    None => Err(BadQuery::NotUtf8 { field }),
                };
            }
        }
    }
    let r = String::new();
    assert(r@ =~= Seq::<char>::empty());
    Ok(r)
}

/// The filters a request target carries, or the field that does not decode. An absent prefix is
/// the archive's own, so "everything" is every object this server filed rather than every key in
/// the bucket.
pub open spec fn filters_of(target: Seq<char>) -> Result<(Seq<char>, Seq<char>), Seq<char>> {
    match field_of(target, PREFIX_FIELD@) {
        None => Err(PREFIX_FIELD@),
        Some(asked) => match field_of(target, AFTER_FIELD@) {
            None => Err(AFTER_FIELD@),
            Some(after) => Ok(
                (
                    if asked.len() == 0 {
                        KEY_PREFIX@
                    } else {
                        asked
                    },
                    after,
                ),
            ),
        },
    }
}

impl Filters {
    /// Read the filters off a request URL.
    pub fn parse(url: &str) -> (r: Result<Filters, BadQuery>)
        ensures
            match r {
                Ok(filters) => filters_of(url@) == Ok::<(Seq<char>, Seq<char>), Seq<char>>(
                    (filters.prefix@, filters.after@),
                ),
                Err(BadQuery::NotUtf8 { field }) => filters_of(url@) == Err::<
                    (Seq<char>, Seq<char>),
                    Seq<char>,
                >(field@),
            },
    {
        let asked = match query_value(url, PREFIX_FIELD) {
            Ok(asked) => asked,
            Err(error) => {
                return Err(error);
            },
        };
        let after = match query_value(url, AFTER_FIELD) {
            Ok(after) => after,
            Err(error) => {
                return Err(error);
            },
        };
        let prefix = if text::is_empty(asked.as_str()) {
            String::from_str(KEY_PREFIX)
        } else {
            asked
        };
        Ok(Filters { prefix, after })
    }
}

/// What a client asks a listing with is what this server reads: whatever characters a prefix and a
/// cursor hold, they come back as they were, and an empty prefix as the archive's own.
pub proof fn listing_target_reads_back(prefix: Seq<char>, after: Seq<char>)
    ensures
        filters_of(http::listing_target(prefix, after)) == Ok::<
            (Seq<char>, Seq<char>),
            Seq<char>,
        >(
            (
                if prefix.len() == 0 {
                    KEY_PREFIX@
                } else {
                    prefix
                },
                after,
            ),
        ),
{
    reveal_strlit("/v1/submissions");
    reveal_strlit("prefix");
    reveal_strlit("after");
    let p = percent::escaped_text(prefix);
    let a = percent::escaped_text(after);
    percent::escaped_has_no_separator(prefix);
    percent::escaped_has_no_separator(after);
    percent::decode_inverts_escape(prefix);
    percent::decode_inverts_escape(after);
    let first = PREFIX_FIELD@ + seq!['='] + p;
    let second = AFTER_FIELD@ + seq!['='] + a;
    let query = first + seq!['&'] + second;
    let target = http::listing_target(prefix, after);
    assert(target =~= http::SUBMISSIONS_PATH@ + seq!['?'] + query);
    text::lemma_halves(http::SUBMISSIONS_PATH@, '?', query);
    text::lemma_pieces_step(first, '&', second);
    text::lemma_pieces_end(second, '&');
    let pairs = text::pieces(query, '&');
    assert(pairs =~= seq![first, second]);
    text::lemma_halves(PREFIX_FIELD@, '=', p);
    text::lemma_halves(AFTER_FIELD@, '=', a);
    assert(pairs[0] == first);
    assert(pairs.skip(1) =~= seq![second]);
    assert(pairs.skip(1)[0] == second);
    assert(PREFIX_FIELD@[0] == 'p' && AFTER_FIELD@[0] == 'a');
    assert(value_under(pairs, PREFIX_FIELD@) == Some(p));
    assert(value_under(pairs.skip(1), AFTER_FIELD@) == Some(a));
    assert(value_under(pairs, AFTER_FIELD@) == Some(a));
}

/// What a client asks an object with is what this server reads.
pub proof fn object_target_reads_back(key: Seq<char>)
    ensures
        field_of(http::object_target(key), http::KEY_FIELD@) == Some(key),
{
    reveal_strlit("/v1/object");
    reveal_strlit("key");
    let k = percent::escaped_text(key);
    percent::escaped_has_no_separator(key);
    percent::decode_inverts_escape(key);
    let pair = http::KEY_FIELD@ + seq!['='] + k;
    assert(http::object_target(key) =~= http::OBJECT_PATH@ + seq!['?'] + pair);
    text::lemma_halves(http::OBJECT_PATH@, '?', pair);
    text::lemma_pieces_end(pair, '&');
    text::lemma_halves(http::KEY_FIELD@, '=', k);
    let pairs = text::pieces(pair, '&');
    assert(pairs[0] == pair);
}

/// Keys as a JSON array of strings.
pub open spec fn json_keys(keys: Seq<Seq<char>>) -> Seq<char> {
    "["@ + text::joined(keys.map_values(|key: Seq<char>| outside::json_text(key)), ","@) + "]"@
}

/// One page of the archive as the JSON a developer parses.
pub open spec fn page_text(keys: Seq<Seq<char>>, truncated: bool) -> Seq<char> {
    "{\"keys\":"@ + json_keys(keys) + ",\"truncated\":"@ + (if truncated {
        "true"@
    } else {
        "false"@
    }) + "}"@
}

/// One page of the archive as the JSON a developer parses.
pub fn page(listing: &Page) -> (r: String)
    ensures
        r@ == page_text(text::views(listing.keys@), listing.truncated),
{
    let ghost keys = text::views(listing.keys@);
    let mut quoted: Vec<String> = Vec::new();
    for i in 0..listing.keys.len()
        invariant
            keys == text::views(listing.keys@),
            text::views(quoted@) == keys.take(i as int).map_values(
                |key: Seq<char>| outside::json_text(key),
            ),
    {
        let ghost before = quoted@;
        let one = outside::json_string(listing.keys[i].as_str());
        quoted.push(one);
        assert(text::views(quoted@) =~= text::views(before).push(one@));
        assert(text::views(quoted@) =~= keys.take(i + 1).map_values(
            |key: Seq<char>| outside::json_text(key),
        ));
    }
    assert(keys.take(keys.len() as int) =~= keys);
    let mut r = String::from_str("{\"keys\":");
    let mut array = String::from_str("[");
    array.append(text::join(quoted.as_slice(), ",").as_str());
    array.append("]");
    r.append(array.as_str());
    r.append(",\"truncated\":");
    r.append(
        if listing.truncated {
            "true"
        } else {
            "false"
        },
    );
    r.append("}");
    r
}

/// A username is one to sixty-four letters, digits, dashes and underscores, and nothing else is
/// one: none holds what separates it from its password.
pub proof fn a_username_is_plain(s: Seq<char>)
    ensures
        username_fault(s) is None <==> 1 <= s.len() <= 64 && forall|i: int|
            0 <= i < s.len() ==> ('a' <= #[trigger] s[i] <= 'z' || 'A' <= s[i] <= 'Z' || '0' <= s[i]
                <= '9' || s[i] == '-' || s[i] == '_'),
        username_fault(s) is None ==> !s.contains(':'),
        s.len() == 0 ==> username_fault(s) == Some(UsernameFault::Empty),
        s.len() > 64 ==> username_fault(s) == Some(UsernameFault::TooLong { found: s.len() as int }),
{
    assert forall|i: int| 0 <= i < s.len() implies (name_char(#[trigger] s[i]) <==> ('a' <= s[i]
        <= 'z' || 'A' <= s[i] <= 'Z' || '0' <= s[i] <= '9' || s[i] == '-' || s[i] == '_')) by {}
    if username_fault(s) is None && s.contains(':') {
        let i = choose|i: int| 0 <= i < s.len() && s[i] == ':';
        assert(name_char(s[i]));
    }
}

/// Accounts are read exactly where each of them has a username and a password: one that lacks
/// either stops them all, and so does a table of none.
pub proof fn an_account_needs_both_parts(written: Seq<(Seq<char>, Seq<char>)>)
    ensures
        enrolled(written) is Ok <==> forall|i: int|
            0 <= i < written.len() ==> username_fault((#[trigger] written[i]).0) is None
                && written[i].1.len() > 0,
        accounts_of(Ok(written)) is Ok <==> written.len() > 0 && enrolled(written) is Ok,
        accounts_of(Ok(written)) is Ok ==> accounts_of(Ok(written)) == enrolled(written),
    decreases written.len(),
{
    if written.len() > 0 {
        let before = written.drop_last();
        an_account_needs_both_parts(before);
        assert(forall|i: int| 0 <= i < before.len() ==> before[i] == #[trigger] written[i]);
        assert(written[written.len() - 1] == written.last());
        if forall|i: int|
            0 <= i < written.len() ==> username_fault((#[trigger] written[i]).0) is None
                && written[i].1.len() > 0 {
            assert(enrolled(before) is Ok);
        }
        if enrolled(written) is Ok {
            assert forall|i: int| 0 <= i < written.len() implies username_fault(
                (#[trigger] written[i]).0,
            ) is None && written[i].1.len() > 0 by {
                if i < before.len() {
                    assert(before[i] == written[i]);
                }
            }
        }
    }
}

/// Whoever presents the credential of an account is let in as that account's user; the scheme may
/// be written in any case, and no header lets nobody in.
pub proof fn the_right_credential_is_let_in(
    named: Map<Seq<u8>, Seq<char>>,
    user: Seq<char>,
    password: Seq<char>,
    encoded: Seq<char>,
)
    requires
        username_fault(user) is None,
        outside::base64_bytes(encoded) == Some(utf8::encode_utf8(credential(user, password))),
        forall|i: int| 0 <= i < encoded.len() ==> outside::base64_char(#[trigger] encoded[i]),
    ensures
        authorized(named, Some("Basic "@ + encoded)) is Ok <==> named.contains_key(
            digest_of(credential(user, password)),
        ),
        named.contains_key(digest_of(credential(user, password))) ==> authorized(
            named,
            Some("Basic "@ + encoded),
        ) == Ok::<Seq<char>, Denial>(named[digest_of(credential(user, password))]),
        presented("basic "@ + encoded) == presented("Basic "@ + encoded),
        authorized(named, None) is Err,
{
    basic_header_presents(user, password, encoded);
    reveal_strlit("Basic ");
    reveal_strlit("Basic");
    reveal_strlit("basic ");
    assert("Basic "@ + encoded =~= "Basic"@ + seq![' '] + encoded);
    let small = seq!['b', 'a', 's', 'i', 'c'];
    assert("basic "@ + encoded =~= small + seq![' '] + encoded);
    text::lemma_halves("Basic"@, ' ', encoded);
    text::lemma_halves(small, ' ', encoded);
    assert(text::alike(small, "Basic"@));
    assert(text::alike("Basic"@, "Basic"@));
}

/// A field is the first of its name, wherever in the query it stands: a pair of another name is
/// passed over.
pub proof fn the_first_of_a_field_is_read(
    name: Seq<char>,
    value: Seq<char>,
    other: Seq<char>,
    rest: Seq<Seq<char>>,
)
    requires
        !name.contains('='),
        !other.contains('='),
        other != name,
    ensures
        value_under(seq![name + seq!['='] + value] + rest, name) == Some(value),
        value_under(seq![other + seq!['='] + value] + rest, name) == value_under(rest, name),
        value_under(Seq::empty(), name) is None,
{
    text::lemma_halves(name, '=', value);
    text::lemma_halves(other, '=', value);
    let a = seq![name + seq!['='] + value] + rest;
    let b = seq![other + seq!['='] + value] + rest;
    assert(a[0] == name + seq!['='] + value);
    assert(b[0] == other + seq!['='] + value);
    assert(b.skip(1) =~= rest);
}

/// Without a query every field is empty, and a listing is of all objects from the first.
pub proof fn without_a_query_nothing_is_asked(path: Seq<char>, field: Seq<char>)
    requires
        !path.contains('?'),
    ensures
        field_of(path, field) == Some(Seq::<char>::empty()),
        filters_of(path) == Ok::<(Seq<char>, Seq<char>), Seq<char>>(
            (KEY_PREFIX@, Seq::<char>::empty()),
        ),
{
    text::lemma_position(path, '?');
    let none = Seq::<char>::empty();
    assert(query_of(path) == none);
    text::lemma_pieces_end(none, '&');
    text::lemma_position(none, '=');
    assert(text::pieces(none, '&')[0] == none);
    assert(text::pieces(none, '&').skip(1) =~= Seq::<Seq<char>>::empty());
    reveal_with_fuel(value_under, 2);
}

/// A page that goes on is never written like one that ends.
pub proof fn a_page_says_whether_it_goes_on(keys: Seq<Seq<char>>)
    ensures
        page_text(keys, true) != page_text(keys, false),
{
    reveal_strlit("true");
    reveal_strlit("false");
    assert(page_text(keys, true).len() + 1 == page_text(keys, false).len());
}

}
