//! The one way this server reads a chain over the wire: a query on a Postgres connection.

use vstd::prelude::*;

use crate::server::psql;
use crate::text;

verus! {

/// The db-sync a config names, opened per query. Connecting costs one round trip on a unix socket
/// and only happens on a cache miss, which buys a caller with no pool, no lock and no reconnect
/// state to get wrong.
pub struct Connection<'a> {
    pub socket_dir: &'a str,
    pub dbname: &'a str,
    pub role: &'a str,
    pub query_timeout_secs: u64,
    /// `None` where the connection needs no password: a peer-authenticated socket does not.
    pub password_file: Option<&'a str>,
}

/// Why a query has no rows.
#[derive(Debug)]
pub enum DbError {
    NoPassword { path: String, source: String },
    CannotConnect { dbname: String, socket_dir: String, source: String },
    Refused { dbname: String, source: String },
    Column { column: String, source: String },
}

/// What a `DbError` is, over plain values.
pub enum DbFault {
    NoPassword { path: Seq<char>, source: Seq<char> },
    CannotConnect { dbname: Seq<char>, socket_dir: Seq<char>, source: Seq<char> },
    Refused { dbname: Seq<char>, source: Seq<char> },
    Column { column: Seq<char>, source: Seq<char> },
}

impl View for DbError {
    type V = DbFault;

    open spec fn view(&self) -> DbFault {
        match *self {
            DbError::NoPassword { path, source } => DbFault::NoPassword {
                path: path@,
                source: source@,
            },
            DbError::CannotConnect { dbname, socket_dir, source } => DbFault::CannotConnect {
                dbname: dbname@,
                socket_dir: socket_dir@,
                source: source@,
            },
            DbError::Refused { dbname, source } => DbFault::Refused {
                dbname: dbname@,
                source: source@,
            },
            DbError::Column { column, source } => DbFault::Column {
                column: column@,
                source: source@,
            },
        }
    }
}

impl DbFault {
    /// What an operator reads.
    pub open spec fn spelled(self) -> Seq<char> {
        match self {
            DbFault::NoPassword { path, source } => "cannot read the password file "@ + path
                + ": "@ + source,
            DbFault::CannotConnect { dbname, socket_dir, source } => "cannot reach "@ + dbname
                + " on "@ + socket_dir + ": "@ + source,
            DbFault::Refused { dbname, source } => dbname + " refused the query: "@ + source,
            DbFault::Column { column, source } => "no "@ + column
                + " of the type the query names: "@ + source,
        }
    }
}

impl DbError {
    /// What an operator reads.
    pub fn message(&self) -> (r: String)
        ensures
            r@ == self@.spelled(),
    {
        match self {
            DbError::NoPassword { path, source } => {
                let mut r = String::from_str("cannot read the password file ");
                r.append(path.as_str());
                r.append(": ");
                r.append(source.as_str());
                r
            },
            DbError::CannotConnect { dbname, socket_dir, source } => {
                let mut r = String::from_str("cannot reach ");
                r.append(dbname.as_str());
                r.append(" on ");
                r.append(socket_dir.as_str());
                r.append(": ");
                r.append(source.as_str());
                r
            },
            DbError::Refused { dbname, source } => {
                let mut r = dbname.clone();
                r.append(" refused the query: ");
                r.append(source.as_str());
                r
            },
            DbError::Column { column, source } => {
                let mut r = String::from_str("no ");
                r.append(column.as_str());
                r.append(" of the type the query names: ");
                r.append(source.as_str());
                r
            },
        }
    }
}

/// How far a query came, as the outside tells it.
#[derive(Debug)]
pub enum Reached<R> {
    NoPassword(String),
    NoConnection(String),
    NoAnswer(String),
    Answered(R),
}

impl<'a> Connection<'a> {
    /// The options the connection is made with.
    pub fn options(&self) -> (r: String)
        ensures
            r@ == psql::timeout_options(self.query_timeout_secs as int),
    {
        psql::options_of(self.query_timeout_secs)
    }

    /// The password a password file holds: its text without the line ends behind it.
    pub fn password(text: &str) -> (r: String)
        ensures
            r@ == text::without_line_ends(text@),
    {
        text::trim_line_ends(text)
    }

    /// What a query's failure is called.
    pub open spec fn fault<R>(self, reached: Reached<R>) -> Option<DbFault> {
        match reached {
            Reached::NoPassword(source) => Some(
                DbFault::NoPassword {
                    path: match self.password_file {
                        Some(path) => path@,
                        None => Seq::empty(),
                    },
                    source: source@,
                },
            ),
            Reached::NoConnection(source) => Some(
                DbFault::CannotConnect {
                    dbname: self.dbname@,
                    socket_dir: self.socket_dir@,
                    source: source@,
                },
            ),
            Reached::NoAnswer(source) => Some(
                DbFault::Refused { dbname: self.dbname@, source: source@ },
            ),
            Reached::Answered(_) => None,
        }
    }

    /// The rows a query answered, or which step failed.
    pub fn answered<R>(&self, reached: Reached<R>) -> (r: Result<R, DbError>)
        ensures
            match r {
                Ok(rows) => reached == Reached::Answered(rows),
                Err(error) => self.fault(reached) == Some(error@),
            },
    {
        match reached {
            Reached::NoPassword(source) => {
                let path = match self.password_file {
                    Some(path) => String::from_str(path),
                    None => String::new(),
                };
                Err(DbError::NoPassword { path, source })
            },
            Reached::NoConnection(source) => Err(
                DbError::CannotConnect {
                    dbname: String::from_str(self.dbname),
                    socket_dir: String::from_str(self.socket_dir),
                    source,
                },
            ),
            Reached::NoAnswer(source) => Err(
                DbError::Refused { dbname: String::from_str(self.dbname), source },
            ),
            Reached::Answered(rows) => Ok(rows),
        }
    }
}

/// What a row without a column of the type the query names is answered.
pub fn column(name: &str, source: String) -> (r: DbError)
    ensures
        r@ == (DbFault::Column { column: name@, source: source@ }),
{
    DbError::Column { column: String::from_str(name), source }
}

}
