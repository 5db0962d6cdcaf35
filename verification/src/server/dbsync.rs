//! The rows behind the Calidus half: label-867 rows read out of a db-sync by running a query
//! through `psql`, and the security parameter that says which of them are deep enough to count.

use vstd::prelude::*;

use crate::count::NonZeroU32;
use crate::hex;
use crate::hex::HexError;
use crate::outside;
use crate::server::calidus::DirectoryError;
use crate::server::config::CalidusConfig;
use crate::server::psql;
use crate::server::psql::{Query, Rows};
use crate::text;
use crate::wire::pool::PoolId;

verus! {

/// How the query names a pool: db-sync renders metadata byte strings as the `0x`-prefixed hex the
/// scope holds.
pub open spec fn scope_text(pool: Seq<u8>) -> Seq<char> {
    "0x"@ + hex::encoded(pool)
}

fn scope_of(pool_id: PoolId) -> (r: String)
    ensures
        r@ == scope_text(pool_id@),
{
    let mut r = String::from_str("0x");
    r.append(hex::encode(pool_id.hash.as_slice()).as_str());
    r
}

/// The chain, over a `psql` the config names.
pub struct DbSync {
    config: CalidusConfig,
    security_parameter: NonZeroU32,
}

/// Why a database has no rows for a pool, in the words of the directory.
pub open spec fn not_hex_reason(error: HexError) -> Seq<char> {
    "psql printed a row that is not hex: "@ + error.spelled()
}

impl DbSync {
    /// The config this reads the chain by.
    pub closed spec fn config(self) -> CalidusConfig {
        self.config
    }

    /// How deep a registration must be before it counts.
    pub closed spec fn depth(self) -> int {
        self.security_parameter@
    }

    /// The chain over a `psql` that the config names.
    pub fn new(config: CalidusConfig, security_parameter: NonZeroU32) -> (r: DbSync)
        ensures
            r.config() == config,
            r.depth() == security_parameter@,
    {
        DbSync { config, security_parameter }
    }

    /// The variables the query is bound with for a pool.
    pub open spec fn bound(self, pool: Seq<u8>) -> Seq<(Seq<char>, Seq<char>)> {
        seq![("scope"@, scope_text(pool)), ("k"@, text::decimal(self.depth()))]
    }

    /// Whether a query is the one that asks for a pool's rows.
    pub open spec fn asks(self, query: Query, pool: Seq<u8>, sql: Seq<char>) -> bool {
        &&& query.psql_path@ == self.config().psql_path@
        &&& query.socket_dir@ == self.config().socket_dir@
        &&& query.dbname@ == self.config().dbname@
        &&& query.role@ == self.config().role@
        &&& query.query_timeout_secs == self.config().query_timeout_secs@
        &&& query.password_file is Some
        &&& query.password_file->0@ == self.config().password_file@
        &&& query.variables@.map_values(|v: (&str, String)| (v.0@, v.1@)) == self.bound(pool)
        &&& query.rows == Rows::TuplesOnly
        &&& query.text@ == sql
    }

    /// The variables that the query is bound with for a pool.
    pub fn variables(&self, pool_id: PoolId) -> (r: Vec<(&'static str, String)>)
        ensures
            r@.map_values(|v: (&str, String)| (v.0@, v.1@)) == self.bound(pool_id@),
    {
        let mut r: Vec<(&'static str, String)> = Vec::new();
        r.push(("scope", scope_of(pool_id)));
        r.push(("k", text::decimal_of(self.security_parameter.get() as u128)));
        assert(r@.map_values(|v: (&str, String)| (v.0@, v.1@)) =~= self.bound(pool_id@));
        r
    }

    /// The query that asks for a pool's rows, over the variables that bind it.
    pub fn query<'a>(&'a self, variables: &'a [(&'a str, String)], sql: &'a str) -> (r: Query<'a>)
        ensures
            forall|pool: Seq<u8>|
                variables@.map_values(|v: (&str, String)| (v.0@, v.1@)) == #[trigger] self.bound(
                    pool,
                ) ==> self.asks(r, pool, sql@),
            r.variables@ == variables@,
    {
        Query {
            psql_path: self.config.psql_path.as_path(),
            socket_dir: self.config.socket_dir.as_path(),
            dbname: self.config.dbname.as_str(),
            role: self.config.role.as_str(),
            query_timeout_secs: self.config.query_timeout_secs.get(),
            password_file: Some(self.config.password_file.as_path()),
            variables,
            rows: Rows::TuplesOnly,
            text: sql,
        }
    }

    /// What a pool's rows are, given what psql printed, or why there are none.
    pub open spec fn rows(pool: Seq<u8>, answer: Result<Seq<char>, Seq<char>>) -> Result<
        Seq<Seq<u8>>,
        Seq<char>,
    > {
        match answer {
            Err(reason) => Err(reason),
            Ok(csv) => match rows_of(text::pieces(csv, '\n')) {
                None => Err(not_hex_reason(HexError::NotHex)),
                Some(rows) => Ok(rows),
            },
        }
    }

    /// A pool's rows out of what the query printed. Whatever failed, the pool is named and so is
    /// the reason.
    pub fn registrations(pool_id: PoolId, printed: Result<String, psql::PsqlError>) -> (r: Result<
        Vec<Vec<u8>>,
        DirectoryError,
    >)
        ensures
            match r {
                Ok(rows) => Self::rows(
                    pool_id@,
                    match printed {
                        Ok(csv) => Ok(csv@),
                        Err(error) => Err(error@.spelled()),
                    },
                ) == Ok::<Seq<Seq<u8>>, Seq<char>>(outside::byte_views(rows@)),
                Err(DirectoryError::Unavailable { pool_id: named, reason }) => named == pool_id
                    && Self::rows(
                    pool_id@,
                    match printed {
                        Ok(csv) => Ok(csv@),
                        Err(error) => Err(error@.spelled()),
                    },
                ) == Err::<Seq<Seq<u8>>, Seq<char>>(reason@),
            },
    {
        match printed {
            Err(error) => Err(DirectoryError::Unavailable { pool_id, reason: error.message() }),
            Ok(csv) => match read_registrations(csv.as_str()) {
                Ok(rows) => Ok(rows),
                Err(error) => {
                    let mut reason = String::from_str("psql printed a row that is not hex: ");
                    reason.append(error.message().as_str());
                    Err(DirectoryError::Unavailable { pool_id, reason })
                },
            },
        }
    }
}

/// The rows that lines spell, one hex blob per line that is not blank; nothing where some line is
/// no hex.
pub open spec fn rows_of(lines: Seq<Seq<char>>) -> Option<Seq<Seq<u8>>>
    decreases lines.len(),
{
    if lines.len() == 0 {
        Some(seq![])
    } else {
        match rows_of(lines.drop_last()) {
            None => None,
            Some(before) => {
                let line = text::trimmed(lines.last());
                if line.len() == 0 {
                    Some(before)
                } else {
                    match hex::decoded(line) {
                        Some(row) => Some(before.push(row)),
                        None => None,
                    }
                }
            },
        }
    }
}

proof fn lemma_rows_stay_missing(lines: Seq<Seq<char>>, i: int)
    requires
        0 <= i <= lines.len(),
        rows_of(lines.take(i)) is None,
    ensures
        rows_of(lines) is None,
    decreases lines.len() - i,
{
    if i < lines.len() {
        assert(lines.take(i + 1).drop_last() =~= lines.take(i));
        lemma_rows_stay_missing(lines, i + 1);
    } else {
        assert(lines.take(i) =~= lines);
    }
}

/// One hex blob per line, as `psql --csv --tuples-only` prints a single column.
///
/// A line that is not hex is a fault in the query or in psql, not a stranger's transaction: the
/// column is produced server-side, so it is hex whatever went on chain.
pub fn read_registrations(csv: &str) -> (r: Result<Vec<Vec<u8>>, HexError>)
    ensures
        match r {
            Ok(rows) => rows_of(text::pieces(csv@, '\n')) == Some(outside::byte_views(rows@)),
            Err(error) => rows_of(text::pieces(csv@, '\n')) is None && error == HexError::NotHex,
        },
{
    let lines = text::split(csv, '\n');
    let ghost all = text::views(lines@);
    let mut rows: Vec<Vec<u8>> = Vec::new();
    assert(outside::byte_views(rows@) =~= seq![]);
    for i in 0..lines.len()
        invariant
            all == text::views(lines@),
            rows_of(all.take(i as int)) == Some(outside::byte_views(rows@)),
            all == text::pieces(csv@, '\n'),
    {
        let ghost before = rows@;
        assert(all.take(i + 1).drop_last() =~= all.take(i as int));
        assert(all.take(i + 1).last() == lines@[i as int]@);
        let line = text::trim(lines[i].as_str());
        if !text::is_empty(line.as_str()) {
            match hex::decode_bytes(line.as_str()) {
                Ok(row) => {
                    rows.push(row);
                    assert(outside::byte_views(rows@) =~= outside::byte_views(before).push(row@));
                },
                Err(error) => {
                    proof {
                        lemma_rows_stay_missing(all, i + 1);
                    }
                    return Err(error);
                },
            }
        }
    }
    assert(all.take(lines@.len() as int) =~= all);
    Ok(rows)
}

/// Why the chain's security parameter is not known.
#[derive(Debug)]
pub enum GenesisError {
    Unreadable { path: String, source: String },
    NotJson { path: String, source: String },
    NoSecurityParameter { path: String },
    NotABlockCount { path: String, found: String },
}

/// What a `GenesisError` is, over plain values.
pub enum GenesisFault {
    Unreadable { path: Seq<char>, source: Seq<char> },
    NotJson { path: Seq<char>, source: Seq<char> },
    NoSecurityParameter { path: Seq<char> },
    NotABlockCount { path: Seq<char>, found: Seq<char> },
}

impl View for GenesisError {
    type V = GenesisFault;

    open spec fn view(&self) -> GenesisFault {
        match *self {
            GenesisError::Unreadable { path, source } => GenesisFault::Unreadable {
                path: path@,
                source: source@,
            },
            GenesisError::NotJson { path, source } => GenesisFault::NotJson {
                path: path@,
                source: source@,
            },
            GenesisError::NoSecurityParameter { path } => GenesisFault::NoSecurityParameter {
                path: path@,
            },
            GenesisError::NotABlockCount { path, found } => GenesisFault::NotABlockCount {
                path: path@,
                found: found@,
            },
        }
    }
}

impl GenesisFault {
    /// What an operator reads.
    pub open spec fn spelled(self) -> Seq<char> {
        match self {
            GenesisFault::Unreadable { path, source } => "cannot read the Shelley genesis "@ + path
                + ": "@ + source,
            GenesisFault::NotJson { path, source } => "the Shelley genesis "@ + path
                + " does not parse: "@ + source,
            GenesisFault::NoSecurityParameter { path } => "the Shelley genesis "@ + path
                + " has no securityParam"@,
            GenesisFault::NotABlockCount { path, found } => "the Shelley genesis "@ + path
                + " has securityParam "@ + found + ", which is no block count"@,
        }
    }
}

impl GenesisError {
    /// What an operator reads.
    pub fn message(&self) -> (r: String)
        ensures
            r@ == self@.spelled(),
    {
        match self {
            GenesisError::Unreadable { path, source } => {
                let mut r = String::from_str("cannot read the Shelley genesis ");
                r.append(path.as_str());
                r.append(": ");
                r.append(source.as_str());
                r
            },
            GenesisError::NotJson { path, source } => {
                let mut r = String::from_str("the Shelley genesis ");
                r.append(path.as_str());
                r.append(" does not parse: ");
                r.append(source.as_str());
                r
            },
            GenesisError::NoSecurityParameter { path } => {
                let mut r = String::from_str("the Shelley genesis ");
                r.append(path.as_str());
                r.append(" has no securityParam");
                r
            },
            GenesisError::NotABlockCount { path, found } => {
                let mut r = String::from_str("the Shelley genesis ");
                r.append(path.as_str());
                r.append(" has securityParam ");
                r.append(found.as_str());
                r.append(", which is no block count");
                r
            },
        }
    }
}

/// The block count that a security parameter is, or why it is none. Nonzero, because a k of zero
/// counts a registration in the tip block and there is then no depth to wait out at all.
pub open spec fn block_count(
    path: Seq<char>,
    found: Result<Option<(Option<u64>, Seq<char>)>, Seq<char>>,
) -> Result<int, GenesisFault> {
    match found {
        Err(source) => Err(GenesisFault::NotJson { path, source }),
        Ok(None) => Err(GenesisFault::NoSecurityParameter { path }),
        Ok(Some((number, shown))) => match number {
            Some(k) if 0 < k <= u32::MAX => Ok(k as int),
            _ => Err(GenesisFault::NotABlockCount { path, found: shown }),
        },
    }
}

/// A field of a document, as plain values.
pub open spec fn found_view(found: Result<Option<(Option<u64>, String)>, String>) -> Result<
    Option<(Option<u64>, Seq<char>)>,
    Seq<char>,
> {
    match found {
        Ok(field) => Ok(outside::field_view(field)),
        Err(error) => Err(error@),
    }
}

/// The block count that a security parameter is: what the document's reader said of it, the whole
/// number it is where it is one, and its text.
pub fn depth_of(path: &str, found: Result<Option<(Option<u64>, String)>, String>) -> (r: Result<
    NonZeroU32,
    GenesisError,
>)
    ensures
        match r {
            Ok(k) => block_count(path@, found_view(found)) == Ok::<int, GenesisFault>(k@),
            Err(error) => block_count(path@, found_view(found)) == Err::<int, GenesisFault>(error@),
        },
{
    let path = String::from_str(path);
    match found {
        Err(source) => Err(GenesisError::NotJson { path, source }),
        Ok(None) => Err(GenesisError::NoSecurityParameter { path }),
        Ok(Some((number, shown))) => {
            if let Some(k) = number {
                if k <= u32::MAX as u64 {
                    if let Some(depth) = NonZeroU32::new(k as u32) {
                        return Ok(depth);
                    }
                }
            }
            Err(GenesisError::NotABlockCount { path, found: shown })
        },
    }
}

/// The chain's k, which fixes how deep a registration must be before it grants anything, out of
/// the text of the genesis file, or of why it could not be read.
pub fn security_parameter(path: &str, genesis: Result<String, String>) -> (r: Result<
    NonZeroU32,
    GenesisError,
>)
    ensures
        match genesis {
            Err(source) => r is Err && r->Err_0@ == (GenesisFault::Unreadable {
                path: path@,
                source: source@,
            }),
            Ok(document) => match r {
                Ok(k) => block_count(
                    path@,
                    outside::json_field_of(document@, "securityParam"@),
                ) == Ok::<int, GenesisFault>(k@),
                Err(error) => block_count(
                    path@,
                    outside::json_field_of(document@, "securityParam"@),
                ) == Err::<int, GenesisFault>(error@),
            },
        },
{
    match genesis {
        Err(source) => Err(GenesisError::Unreadable { path: String::from_str(path), source }),
        Ok(document) => {
            let found = outside::json_field(document.as_str(), "securityParam");
            depth_of(path, found)
        },
    }
}

/// What was printed reads back: rows in hex, one to a line, are those rows in that order.
pub proof fn printed_rows_read_back(rows: Seq<Seq<u8>>)
    requires
        forall|i: int| 0 <= i < rows.len() ==> (#[trigger] rows[i]).len() > 0,
    ensures
        rows_of(rows.map_values(|row: Seq<u8>| hex::encoded(row))) == Some(rows),
    decreases rows.len(),
{
    let lines = rows.map_values(|row: Seq<u8>| hex::encoded(row));
    if rows.len() > 0 {
        let before = rows.drop_last();
        assert forall|i: int| 0 <= i < before.len() implies (#[trigger] before[i]).len() > 0 by {
            assert(before[i] == rows[i]);
        }
        printed_rows_read_back(before);
        assert(lines.drop_last() =~= before.map_values(|row: Seq<u8>| hex::encoded(row)));
        let row = rows.last();
        assert(rows[rows.len() - 1] == row);
        let line = hex::encoded(row);
        assert(lines.last() == line);
        assert forall|i: int| 0 <= i < line.len() implies !text::white(#[trigger] line[i]) by {
            let n = if i % 2 == 0 {
                row[i / 2] as int / 16
            } else {
                row[i / 2] as int % 16
            };
            assert(line[i] == hex::nibble_char(n));
        }
        assert(!text::white(line[0]) && !text::white(line[line.len() - 1]));
        text::lemma_trimmed_is(line);
        hex::decode_inverts_encode(row);
        assert(before.push(row) =~= rows);
    } else {
        assert(rows =~= Seq::empty());
    }
}

/// A blank line is no row; and one line that is no hex refuses them all.
pub proof fn every_line_is_a_row(lines: Seq<Seq<char>>, line: Seq<char>)
    ensures
        text::trimmed(line).len() == 0 ==> rows_of(lines.push(line)) == rows_of(lines),
        text::trimmed(line).len() > 0 && hex::decoded(text::trimmed(line)) is None ==> rows_of(
            lines.push(line),
        ) is None,
        rows_of(lines) is None ==> rows_of(lines.push(line)) is None,
{
    assert(lines.push(line).drop_last() =~= lines);
}

/// The security parameter is a number of blocks: above zero, and no more than fits.
pub proof fn a_depth_is_a_block_count(path: Seq<char>, k: u64, shown: Seq<char>)
    ensures
        0 < k <= u32::MAX ==> block_count(path, Ok(Some((Some(k), shown)))) == Ok::<
            int,
            GenesisFault,
        >(k as int),
        k == 0 || k > u32::MAX ==> block_count(path, Ok(Some((Some(k), shown)))) == Err::<
            int,
            GenesisFault,
        >(GenesisFault::NotABlockCount { path, found: shown }),
        block_count(path, Ok(None)) == Err::<int, GenesisFault>(
            GenesisFault::NoSecurityParameter { path },
        ),
{
}

/// A pool is scoped by its bytes in hex behind `0x`, and no two pools are scoped alike.
pub proof fn a_scope_is_its_pool(a: Seq<u8>, b: Seq<u8>)
    ensures
        text::after_prefix(scope_text(a), "0x"@) == Some(hex::encoded(a)),
        scope_text(a) == scope_text(b) ==> a == b,
{
    text::parts_come_apart("0x"@, hex::encoded(a));
    text::parts_come_apart("0x"@, hex::encoded(b));
    hex::decode_inverts_encode(a);
    hex::decode_inverts_encode(b);
}

}
