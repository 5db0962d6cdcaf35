//! The one way this server reads a chain through a client program: a query handed to `psql`.

use vstd::prelude::*;

use crate::outside;
use crate::text;

verus! {

/// Whether the answer names its own columns.
#[derive(Debug, Clone, Copy, PartialEq, Eq, Structural)]
pub enum Rows {
    WithHeader,
    TuplesOnly,
}

/// A query against the database a config names.
pub struct Query<'a> {
    pub psql_path: &'a str,
    pub socket_dir: &'a str,
    pub dbname: &'a str,
    pub role: &'a str,
    pub query_timeout_secs: u64,
    /// A `.pgpass` reaching psql as `PGPASSFILE`, where the connection needs one: a
    /// peer-authenticated socket does not.
    pub password_file: Option<&'a str>,
    /// Bound as psql variables rather than spliced into `text`, so every query stays fixed at
    /// compile time. Interpolated only into a script psql reads, which is why it goes in on stdin.
    pub variables: &'a [(&'a str, String)],
    pub rows: Rows,
    pub text: &'a str,
}

/// Why a query has no answer.
#[derive(Debug)]
pub enum PsqlError {
    CannotRun { psql: String, source: String },
    Failed { psql: String, status: String, stderr: String },
    NotUtf8 { psql: String, source: String },
}

/// What a `PsqlError` is, over plain values.
pub enum PsqlFault {
    CannotRun { psql: Seq<char>, source: Seq<char> },
    Failed { psql: Seq<char>, status: Seq<char>, stderr: Seq<char> },
    NotUtf8 { psql: Seq<char>, source: Seq<char> },
}

impl View for PsqlError {
    type V = PsqlFault;

    open spec fn view(&self) -> PsqlFault {
        match *self {
            PsqlError::CannotRun { psql, source } => PsqlFault::CannotRun {
                psql: psql@,
                source: source@,
            },
            PsqlError::Failed { psql, status, stderr } => PsqlFault::Failed {
                psql: psql@,
                status: status@,
                stderr: stderr@,
            },
            PsqlError::NotUtf8 { psql, source } => PsqlFault::NotUtf8 {
                psql: psql@,
                source: source@,
            },
        }
    }
}

impl PsqlFault {
    /// What an operator reads.
    pub open spec fn spelled(self) -> Seq<char> {
        match self {
            PsqlFault::CannotRun { psql, source } => "cannot run "@ + psql + ": "@ + source,
            PsqlFault::Failed { psql, status, stderr } => psql + " exited "@ + status + ": "@
                + stderr,
            PsqlFault::NotUtf8 { psql, source } => psql + " printed something that is not UTF-8: "@
                + source,
        }
    }
}

impl PsqlError {
    /// What an operator reads.
    pub fn message(&self) -> (r: String)
        ensures
            r@ == self@.spelled(),
    {
        match self {
            PsqlError::CannotRun { psql, source } => {
                let mut r = String::from_str("cannot run ");
                r.append(psql.as_str());
                r.append(": ");
                r.append(source.as_str());
                r
            },
            PsqlError::Failed { psql, status, stderr } => {
                let mut r = psql.clone();
                r.append(" exited ");
                r.append(status.as_str());
                r.append(": ");
                r.append(stderr.as_str());
                r
            },
            PsqlError::NotUtf8 { psql, source } => {
                let mut r = psql.clone();
                r.append(" printed something that is not UTF-8: ");
                r.append(source.as_str());
                r
            },
        }
    }
}

/// How psql is run: the whole of its environment, and its arguments.
#[derive(Debug)]
pub struct PsqlCommand {
    pub environment: Vec<(String, String)>,
    pub arguments: Vec<String>,
}

/// What running psql came to, as the operating system tells it.
#[derive(Debug)]
pub enum Ran {
    /// It could not be started, or not be waited for.
    NotRun { error: String },
    /// It ended. `success` is whether it said that it did what it was asked, and `unwritten` what
    /// went wrong in handing it the script, if something did.
    Ended {
        success: bool,
        status: String,
        stderr: String,
        unwritten: Option<String>,
        stdout: Vec<u8>,
    },
}

/// The statement timeout a connection is made with.
pub open spec fn timeout_options(secs: int) -> Seq<char> {
    "-c statement_timeout="@ + text::decimal(secs) + "s"@
}

/// The statement timeout a connection is made with.
pub fn options_of(secs: u64) -> (r: String)
    ensures
        r@ == timeout_options(secs as int),
{
    let mut r = String::from_str("-c statement_timeout=");
    r.append(text::decimal_of(secs as u128).as_str());
    r.append("s");
    r
}

/// The arguments that bind variables.
pub open spec fn variable_arguments(variables: Seq<(&str, String)>) -> Seq<Seq<char>>
    decreases variables.len(),
{
    if variables.len() == 0 {
        seq![]
    } else {
        variable_arguments(variables.drop_last()) + seq![
            "--set"@,
            variables.last().0@ + "="@ + variables.last().1@,
        ]
    }
}

impl<'a> Query<'a> {
    /// The environment psql is given. Nothing is inherited: PGPASSWORD, PGSERVICE and PGDATABASE
    /// would each reach a database the config does not name. PGPASSFILE is a path, so no password
    /// enters the environment.
    pub open spec fn environment(self) -> Seq<(Seq<char>, Seq<char>)> {
        let options = seq![("PGOPTIONS"@, timeout_options(self.query_timeout_secs as int))];
        match self.password_file {
            Some(path) => options + seq![("PGPASSFILE"@, path@)],
            None => options,
        }
    }

    /// The arguments psql is given.
    pub open spec fn arguments(self) -> Seq<Seq<char>> {
        seq![
            "--csv"@,
            "--no-psqlrc"@,
            "--quiet"@,
            "--host"@,
            self.socket_dir@,
            "--dbname"@,
            self.dbname@,
            "--username"@,
            self.role@,
        ] + (if self.rows == Rows::TuplesOnly {
            seq!["--tuples-only"@]
        } else {
            seq![]
        }) + variable_arguments(self.variables@) + seq!["--file"@, "-"@]
    }

    /// What running psql came to. What psql said about its own failure comes ahead of the broken
    /// pipe that failure leaves behind.
    pub open spec fn answer(self, ran: Ran) -> Result<Seq<u8>, PsqlFault> {
        let psql = self.psql_path@;
        match ran {
            Ran::NotRun { error } => Err(PsqlFault::CannotRun { psql, source: error@ }),
            Ran::Ended { success, status, stderr, unwritten, stdout } => if !success {
                Err(PsqlFault::Failed { psql, status: status@, stderr: text::trimmed(stderr@) })
            } else if unwritten is Some {
                Err(PsqlFault::CannotRun { psql, source: unwritten->0@ })
            } else if !vstd::utf8::valid_utf8(stdout@) {
                Err(PsqlFault::NotUtf8 { psql, source: outside::utf8_refusal(stdout@) })
            } else {
                Ok(stdout@)
            },
        }
    }

    /// How psql is run for this query.
    pub fn command(&self) -> (r: PsqlCommand)
        ensures
            r.environment@.map_values(|e: (String, String)| (e.0@, e.1@)) == self.environment(),
            text::views(r.arguments@) == self.arguments(),
    {
        let mut environment: Vec<(String, String)> = Vec::new();
        environment.push((String::from_str("PGOPTIONS"), options_of(self.query_timeout_secs)));
        if let Some(path) = self.password_file {
            environment.push((String::from_str("PGPASSFILE"), String::from_str(path)));
        }
        assert(environment@.map_values(|e: (String, String)| (e.0@, e.1@)) =~= self.environment());
        let mut arguments: Vec<String> = Vec::new();
        arguments.push(String::from_str("--csv"));
        arguments.push(String::from_str("--no-psqlrc"));
        arguments.push(String::from_str("--quiet"));
        arguments.push(String::from_str("--host"));
        arguments.push(String::from_str(self.socket_dir));
        arguments.push(String::from_str("--dbname"));
        arguments.push(String::from_str(self.dbname));
        arguments.push(String::from_str("--username"));
        arguments.push(String::from_str(self.role));
        if self.rows == Rows::TuplesOnly {
            arguments.push(String::from_str("--tuples-only"));
        }
        let ghost head = text::views(arguments@);
        assert(head =~= seq![
            "--csv"@,
            "--no-psqlrc"@,
            "--quiet"@,
            "--host"@,
            self.socket_dir@,
            "--dbname"@,
            self.dbname@,
            "--username"@,
            self.role@,
        ] + (if self.rows == Rows::TuplesOnly {
            seq!["--tuples-only"@]
        } else {
            seq![]
        }));
        assert(head =~= head + variable_arguments(self.variables@.take(0)));
        for i in 0..self.variables.len()
            invariant
                text::views(arguments@) == head + variable_arguments(
                    self.variables@.take(i as int),
                ),
        {
            let ghost before = arguments@;
            let mut bound = String::from_str(self.variables[i].0);
            bound.append("=");
            bound.append(self.variables[i].1.as_str());
            arguments.push(String::from_str("--set"));
            arguments.push(bound);
            proof {
                let variables = self.variables@.take(i + 1);
                assert(variables.drop_last() =~= self.variables@.take(i as int));
                assert(text::views(arguments@) =~= text::views(before) + seq![
                    "--set"@,
                    variables.last().0@ + "="@ + variables.last().1@,
                ]);
                assert(text::views(arguments@) =~= head + variable_arguments(variables));
            }
        }
        assert(self.variables@.take(self.variables@.len() as int) =~= self.variables@);
        let ghost before = text::views(arguments@);
        arguments.push(String::from_str("--file"));
        arguments.push(String::from_str("-"));
        assert(text::views(arguments@) =~= before + seq!["--file"@, "-"@]);
        PsqlCommand { environment, arguments }
    }

    /// What psql printed, as text.
    pub fn outcome(&self, ran: Ran) -> (r: Result<String, PsqlError>)
        ensures
            match r {
                Ok(printed) => self.answer(ran) == Ok::<Seq<u8>, PsqlFault>(
                    vstd::utf8::encode_utf8(printed@),
                ),
                Err(error) => self.answer(ran) == Err::<Seq<u8>, PsqlFault>(error@),
            },
    {
        let psql = String::from_str(self.psql_path);
        match ran {
            Ran::NotRun { error } => Err(PsqlError::CannotRun { psql, source: error }),
            Ran::Ended { success, status, stderr, unwritten, stdout } => {
                if !success {
                    return Err(
                        PsqlError::Failed { psql, status, stderr: text::trim(stderr.as_str()) },
                    );
                }
                if let Some(source) = unwritten {
                    return Err(PsqlError::CannotRun { psql, source });
                }
                match outside::text_from_utf8(stdout.as_slice()) {
                    Ok(printed) => {
                        proof {
                            vstd::utf8::encode_utf8_valid_utf8(printed@);
                        }
                        Ok(printed)
                    },
                    Err(source) => Err(PsqlError::NotUtf8 { psql, source }),
                }
            },
        }
    }
}

/// Every variable is set, each as its name and its value, in the order in which they were given.
pub proof fn every_variable_is_set(variables: Seq<(&str, String)>, i: int)
    requires
        0 <= i < variables.len(),
    ensures
        variable_arguments(variables).len() == 2 * variables.len(),
        variable_arguments(variables)[2 * i] == "--set"@,
        variable_arguments(variables)[2 * i + 1] == variables[i].0@ + "="@ + variables[i].1@,
    decreases variables.len(),
{
    let before = variables.drop_last();
    if before.len() == 0 {
        assert(variable_arguments(before) =~= seq![]);
    } else {
        every_variable_is_set(before, if i < before.len() {
            i
        } else {
            0
        });
    }
    if i < before.len() {
        assert(before[i] == variables[i]);
    }
}

impl Ran {
    /// Whether it ran to a good end: it was started, took its script whole, said that it did what
    /// it was asked, and printed text.
    pub open spec fn went_well(self) -> bool {
        self matches Ran::Ended { success, unwritten, stdout, .. } && success && unwritten is None
            && vstd::utf8::valid_utf8(stdout@)
    }
}

/// What was printed is the answer exactly where the run went well, and then all of it.
pub proof fn only_a_good_end_is_an_answer(query: Query, ran: Ran)
    ensures
        query.answer(ran) is Ok <==> ran.went_well(),
        query.answer(ran) matches Ok(printed) ==> ran matches Ran::Ended { stdout, .. } && printed
            == stdout@,
        ran is NotRun ==> query.answer(ran) matches Err(PsqlFault::CannotRun { .. }),
        ran matches Ran::Ended { success: false, .. } ==> query.answer(ran) matches Err(
            PsqlFault::Failed { .. },
        ),
{
}

/// A query is handed to the place, the database and the role that it is for, and the password goes
/// by the name of its file in the environment; the script itself comes last, on the input.
pub proof fn a_query_goes_where_it_is_for(query: Query)
    ensures
        ({
            let arguments = query.arguments();
            let n = arguments.len() as int;
            &&& arguments[3] == "--host"@ && arguments[4] == query.socket_dir@
            &&& arguments[5] == "--dbname"@ && arguments[6] == query.dbname@
            &&& arguments[7] == "--username"@ && arguments[8] == query.role@
            &&& query.rows == Rows::TuplesOnly ==> arguments[9] == "--tuples-only"@
            &&& arguments[n - 2] == "--file"@ && arguments[n - 1] == "-"@
            &&& query.environment()[0] == (
                "PGOPTIONS"@,
                timeout_options(query.query_timeout_secs as int),
            )
            &&& query.password_file is Some ==> query.environment().len() == 2
                && query.environment()[1] == ("PGPASSFILE"@, query.password_file->0@)
            &&& query.password_file is None ==> query.environment().len() == 1
        }),
{
}

}
