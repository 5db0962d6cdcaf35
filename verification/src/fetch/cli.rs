//! CLI arguments, hand-parsed.
//!
//! No access flag has a default. The endpoint, the account and the deadline are the deployment's,
//! and a tool that guessed one would sync from somewhere the operator did not name. A variable is
//! not a guess: it is the operator naming the same deployment once instead of per run.
//!
//! The environment is passed in rather than read here, so a run's answer never depends on what
//! the machine happens to export.

use vstd::prelude::*;

use crate::count::NonZeroU64;
use crate::fetch::select;
use crate::fetch::select::Selection;
use crate::fetch::verification::{
    default_max_object_bytes,
    Insist,
    Verification,
    DEFAULT_MAX_OBJECT_BYTES,
};
use crate::key;
use crate::key::{Kind, KEY_PREFIX};
use crate::outside;
use crate::text;
use crate::wire::agent;
use crate::wire::agent::AgentId;
use crate::wire::pool;
use crate::wire::pool::PoolId;

verus! {

/// What stands in for each access flag.
pub const ENV_SERVER: &'static str = "METSUKE_FETCH_SERVER";

pub const ENV_USER: &'static str = "METSUKE_FETCH_USER";

/// Carries the path, as its flag does: a password in the environment reaches every child.
pub const ENV_PASSWORD_FILE: &'static str = "METSUKE_FETCH_PASSWORD_FILE";

pub const ENV_TIMEOUT_MS: &'static str = "METSUKE_FETCH_TIMEOUT_MS";

/// The build, which every run names and `--version` answers with.
pub const VERSION: &'static str = "0.1.0";

/// What `--help` answers. A refusal points here instead of repeating it, so the error an operator
/// has to read stays one line.
pub const USAGE: &'static str = "metsuke-fetch downloads the signed telemetry archive to local files.

usage:
  metsuke-fetch list <access> [filters]
  metsuke-fetch sync <access> [filters] --state <path> --into <dir>
  metsuke-fetch --help | --version

  list   print the keys the filters match, downloading nothing
  sync   download the ones the cursor has not seen, then advance the cursor

access, which every command needs:
  --server <url>          where the archive is
  --user <name>           the developer account to authenticate as
  --password-file <path>  a file holding that account's password, nothing else
  --timeout-ms <n>        how long one request may take, in milliseconds

sync:
  --state <path>          the cursor; a run resumes from it and advances it
  --into <dir>            where objects land, each under its own key
  --max-object-bytes <n>  the largest size each object can be;
                          16777216 by default
  --require-attested      write only cold-signed and Leios-signed objects
  --require-cold-signed   write only cold-signed objects

  One state file per set of filters. They may share one --into.

filters, which default to the whole archive:
  --prefix <key prefix>   only keys starting with this
  --pool <bech32>         only this pool, as the archive keys it
  --agent <id>            only this agent
  --kind metrics|logs     only this kind

No access flag has a default. Each also reads METSUKE_FETCH_<FLAG>, its own
name upper-cased with dashes as underscores, and the flag wins where both are
given. A variable set to nothing counts as unset, and the password variable
carries the path, never the password.

example:
  export METSUKE_FETCH_SERVER=https://archive.example
  export METSUKE_FETCH_USER=dev
  export METSUKE_FETCH_PASSWORD_FILE=~/.config/metsuke/password
  export METSUKE_FETCH_TIMEOUT_MS=30000
  metsuke-fetch sync --state ~/.local/state/metsuke-fetch/cursor.json \\
    --into ~/archive";

/// Where a refusal sends the operator, rather than printing all of `USAGE` on top of the error.
pub const HELP_HINT: &'static str = "try metsuke-fetch --help";

/// What the arguments asked for. `--help` and `--version` are their own outcomes rather than
/// commands, because they answer without an endpoint, an account or a credential, and every
/// command needs all three.
#[derive(Debug, PartialEq, Eq)]
pub enum Invocation {
    Help,
    Version,
    Run(Box<Args>),
}

/// One run.
#[derive(Debug, PartialEq, Eq)]
pub struct Args {
    pub command: Command,
    pub access: Access,
    /// The literal head of the object keys this run is about, which the server filters the
    /// listing on. An absent one is the archive's own prefix, so the two spellings of
    /// "everything" are one cursor.
    pub prefix: String,
    /// What the run keeps of the keys the prefix listed.
    pub selection: Selection,
    /// What the run will hold to check an object, and what it insists on.
    pub verification: Verification,
}

/// What the run does with the keys it lists.
#[derive(Debug, PartialEq, Eq)]
pub enum Command {
    /// Print them and download nothing.
    List,
    /// Download the ones after the cursor, advancing it in `state`.
    Sync { state: String, into: String },
}

/// How to reach the archive: where it is, who this is, and how long one request may take.
#[derive(Debug, PartialEq, Eq)]
pub struct Access {
    pub server: String,
    pub user: String,
    /// A file holding the account's password and nothing else. A path, so no secret reaches the
    /// process table.
    pub password_file: String,
    pub timeout_ms: NonZeroU64,
}

/// What the environment answers for the access flags nobody gave.
#[derive(Debug)]
pub struct Environment {
    pub server: Option<String>,
    pub user: Option<String>,
    pub password_file: Option<String>,
    pub timeout_ms: Option<String>,
}

/// Why the arguments name no run.
#[derive(Debug)]
#[allow(inconsistent_fields)]
pub enum ArgsError {
    NoCommand,
    UnknownCommand { command: String },
    Unknown { argument: String },
    MissingValue { flag: &'static str },
    /// An access flag has a second way to arrive, and naming only the flag sends an operator who
    /// set the variable looking in the wrong place.
    Missing { command: &'static str, flag: &'static str, variable: Option<&'static str> },
    NotForCommand { command: &'static str, flag: &'static str },
    NotAByteCount { flag: &'static str, value: String },
    NotADuration { flag: &'static str, value: String },
    NotAFilter { flag: &'static str, value: String, reason: String },
}

/// What an `ArgsError` is, over plain texts.
pub enum ArgsFault {
    NoCommand,
    UnknownCommand { command: Seq<char> },
    Unknown { argument: Seq<char> },
    MissingValue { flag: Seq<char> },
    Missing { command: Seq<char>, flag: Seq<char>, variable: Option<Seq<char>> },
    NotForCommand { command: Seq<char>, flag: Seq<char> },
    NotAByteCount { flag: Seq<char>, value: Seq<char> },
    NotADuration { flag: Seq<char>, value: Seq<char> },
    NotAFilter { flag: Seq<char>, value: Seq<char>, reason: Seq<char> },
}

impl View for ArgsError {
    type V = ArgsFault;

    open spec fn view(&self) -> ArgsFault {
        match *self {
            ArgsError::NoCommand => ArgsFault::NoCommand,
            ArgsError::UnknownCommand { command } => ArgsFault::UnknownCommand { command: command@ },
            ArgsError::Unknown { argument } => ArgsFault::Unknown { argument: argument@ },
            ArgsError::MissingValue { flag } => ArgsFault::MissingValue { flag: flag@ },
            ArgsError::Missing { command, flag, variable } => ArgsFault::Missing {
                command: command@,
                flag: flag@,
                variable: match variable {
                    Some(variable) => Some(variable@),
                    None => None,
                },
            },
            ArgsError::NotForCommand { command, flag } => ArgsFault::NotForCommand {
                command: command@,
                flag: flag@,
            },
            ArgsError::NotAByteCount { flag, value } => ArgsFault::NotAByteCount {
                flag: flag@,
                value: value@,
            },
            ArgsError::NotADuration { flag, value } => ArgsFault::NotADuration {
                flag: flag@,
                value: value@,
            },
            ArgsError::NotAFilter { flag, value, reason } => ArgsFault::NotAFilter {
                flag: flag@,
                value: value@,
                reason: reason@,
            },
        }
    }
}

/// A refusal that sends the operator to the usage.
pub open spec fn hinted(words: Seq<char>) -> Seq<char> {
    words + seq!['\n'] + HELP_HINT@
}

impl ArgsFault {
    /// The line an operator reads.
    pub open spec fn spelled(self) -> Seq<char> {
        match self {
            ArgsFault::NoCommand => hinted("name a command, list or sync"@),
            ArgsFault::UnknownCommand { command } => hinted(
                "unknown command "@ + outside::quoted(command),
            ),
            ArgsFault::Unknown { argument } => hinted(
                "unknown argument "@ + outside::quoted(argument),
            ),
            ArgsFault::MissingValue { flag } => hinted(flag + " needs a value"@),
            ArgsFault::Missing { command, flag, variable } => hinted(
                command + " needs "@ + flag + (match variable {
                    Some(variable) => ", or "@ + variable + " in the environment"@,
                    None => Seq::empty(),
                }),
            ),
            ArgsFault::NotForCommand { command, flag } => hinted(command + " takes no "@ + flag),
            ArgsFault::NotAByteCount { flag, value } => flag
                + " takes a whole number of bytes above zero, not "@ + outside::quoted(value),
            ArgsFault::NotADuration { flag, value } => flag
                + " takes a whole number of milliseconds above zero, not "@ + outside::quoted(
                value,
            ),
            ArgsFault::NotAFilter { flag, value, reason } => flag + seq![' '] + outside::quoted(
                value,
            ) + " is not one: "@ + reason,
        }
    }
}

impl ArgsError {
    /// The line an operator reads.
    pub fn message(&self) -> (r: String)
        ensures
            r@ == self@.spelled(),
    {
        let mut r = String::new();
        match self {
            ArgsError::NoCommand => {
                r.append("name a command, list or sync");
            },
            ArgsError::UnknownCommand { command } => {
                r.append("unknown command ");
                r.append(outside::quote(command.as_str()).as_str());
            },
            ArgsError::Unknown { argument } => {
                r.append("unknown argument ");
                r.append(outside::quote(argument.as_str()).as_str());
            },
            ArgsError::MissingValue { flag } => {
                r.append(flag);
                r.append(" needs a value");
            },
            ArgsError::Missing { command, flag, variable } => {
                r.append(command);
                r.append(" needs ");
                r.append(flag);
                let ghost before = r@;
                match variable {
                    Some(variable) => {
                        r.append(", or ");
                        r.append(variable);
                        r.append(" in the environment");
                        assert(r@ =~= before + (", or "@ + variable@ + " in the environment"@));
                    },
                    None => {
                        assert(r@ =~= before + Seq::<char>::empty());
                    },
                }
            },
            ArgsError::NotForCommand { command, flag } => {
                r.append(command);
                r.append(" takes no ");
                r.append(flag);
            },
            ArgsError::NotAByteCount { flag, value } => {
                r.append(flag);
                r.append(" takes a whole number of bytes above zero, not ");
                r.append(outside::quote(value.as_str()).as_str());
                assert(r@ =~= self@.spelled());
                return r;
            },
            ArgsError::NotADuration { flag, value } => {
                r.append(flag);
                r.append(" takes a whole number of milliseconds above zero, not ");
                r.append(outside::quote(value.as_str()).as_str());
                assert(r@ =~= self@.spelled());
                return r;
            },
            ArgsError::NotAFilter { flag, value, reason } => {
                r.append(flag);
                r.push(' ');
                r.append(outside::quote(value.as_str()).as_str());
                r.append(" is not one: ");
                r.append(reason.as_str());
                assert(r@ =~= self@.spelled());
                return r;
            },
        }
        r.push('\n');
        r.append(HELP_HINT);
        assert(r@ =~= self@.spelled());
        r
    }
}

/// A flag that takes a value.
#[derive(Debug, Clone, Copy, PartialEq, Eq, Structural)]
pub enum Flag {
    Server,
    User,
    PasswordFile,
    TimeoutMs,
    State,
    Into,
    Prefix,
    Pool,
    Agent,
    Kind,
    MaxObjectBytes,
}

impl Flag {
    /// How a flag is written.
    pub open spec fn spelled(self) -> Seq<char> {
        match self {
            Flag::Server => "--server"@,
            Flag::User => "--user"@,
            Flag::PasswordFile => "--password-file"@,
            Flag::TimeoutMs => "--timeout-ms"@,
            Flag::State => "--state"@,
            Flag::Into => "--into"@,
            Flag::Prefix => "--prefix"@,
            Flag::Pool => "--pool"@,
            Flag::Agent => "--agent"@,
            Flag::Kind => "--kind"@,
            Flag::MaxObjectBytes => "--max-object-bytes"@,
        }
    }

    /// The flag that is written so.
    pub open spec fn of_spec(argument: Seq<char>) -> Option<Flag> {
        if argument == "--server"@ {
            Some(Flag::Server)
        } else if argument == "--user"@ {
            Some(Flag::User)
        } else if argument == "--password-file"@ {
            Some(Flag::PasswordFile)
        } else if argument == "--timeout-ms"@ {
            Some(Flag::TimeoutMs)
        } else if argument == "--state"@ {
            Some(Flag::State)
        } else if argument == "--into"@ {
            Some(Flag::Into)
        } else if argument == "--prefix"@ {
            Some(Flag::Prefix)
        } else if argument == "--pool"@ {
            Some(Flag::Pool)
        } else if argument == "--agent"@ {
            Some(Flag::Agent)
        } else if argument == "--kind"@ {
            Some(Flag::Kind)
        } else if argument == "--max-object-bytes"@ {
            Some(Flag::MaxObjectBytes)
        } else {
            None
        }
    }

    /// How this flag is written.
    pub fn as_str(&self) -> (r: &'static str)
        ensures
            r@ == self.spelled(),
    {
        match self {
            Flag::Server => "--server",
            Flag::User => "--user",
            Flag::PasswordFile => "--password-file",
            Flag::TimeoutMs => "--timeout-ms",
            Flag::State => "--state",
            Flag::Into => "--into",
            Flag::Prefix => "--prefix",
            Flag::Pool => "--pool",
            Flag::Agent => "--agent",
            Flag::Kind => "--kind",
            Flag::MaxObjectBytes => "--max-object-bytes",
        }
    }

    /// The flag that is written so.
    pub fn of(argument: &str) -> (r: Option<Flag>)
        ensures
            r == Flag::of_spec(argument@),
    {
        if text::same(argument, "--server") {
            Some(Flag::Server)
        } else if text::same(argument, "--user") {
            Some(Flag::User)
        } else if text::same(argument, "--password-file") {
            Some(Flag::PasswordFile)
        } else if text::same(argument, "--timeout-ms") {
            Some(Flag::TimeoutMs)
        } else if text::same(argument, "--state") {
            Some(Flag::State)
        } else if text::same(argument, "--into") {
            Some(Flag::Into)
        } else if text::same(argument, "--prefix") {
            Some(Flag::Prefix)
        } else if text::same(argument, "--pool") {
            Some(Flag::Pool)
        } else if text::same(argument, "--agent") {
            Some(Flag::Agent)
        } else if text::same(argument, "--kind") {
            Some(Flag::Kind)
        } else if text::same(argument, "--max-object-bytes") {
            Some(Flag::MaxObjectBytes)
        } else {
            None
        }
    }
}

/// Every flag as it was given, before which command needs which is applied. One field per flag so
/// the value a repeated flag ends up with is the last one.
#[derive(Debug)]
pub struct Given {
    pub server: Option<String>,
    pub user: Option<String>,
    pub password_file: Option<String>,
    pub timeout_ms: Option<String>,
    pub state: Option<String>,
    pub into: Option<String>,
    pub prefix: Option<String>,
    pub pool: Option<String>,
    pub agent: Option<String>,
    pub kind: Option<String>,
    pub max_object_bytes: Option<String>,
    pub insist: Insist,
}

/// What the flags were given, over plain texts.
pub struct Values {
    pub server: Option<Seq<char>>,
    pub user: Option<Seq<char>>,
    pub password_file: Option<Seq<char>>,
    pub timeout_ms: Option<Seq<char>>,
    pub state: Option<Seq<char>>,
    pub into: Option<Seq<char>>,
    pub prefix: Option<Seq<char>>,
    pub pool: Option<Seq<char>>,
    pub agent: Option<Seq<char>>,
    pub kind: Option<Seq<char>>,
    pub max_object_bytes: Option<Seq<char>>,
    pub insist: Insist,
}

impl View for Given {
    type V = Values;

    open spec fn view(&self) -> Values {
        Values {
            server: text::view_of(self.server),
            user: text::view_of(self.user),
            password_file: text::view_of(self.password_file),
            timeout_ms: text::view_of(self.timeout_ms),
            state: text::view_of(self.state),
            into: text::view_of(self.into),
            prefix: text::view_of(self.prefix),
            pool: text::view_of(self.pool),
            agent: text::view_of(self.agent),
            kind: text::view_of(self.kind),
            max_object_bytes: text::view_of(self.max_object_bytes),
            insist: self.insist,
        }
    }
}

impl Values {
    /// No flag given.
    pub open spec fn none() -> Values {
        Values {
            server: None,
            user: None,
            password_file: None,
            timeout_ms: None,
            state: None,
            into: None,
            prefix: None,
            pool: None,
            agent: None,
            kind: None,
            max_object_bytes: None,
            insist: Insist::Nothing,
        }
    }

    /// These with one more flag given.
    pub open spec fn with(self, flag: Flag, value: Seq<char>) -> Values {
        match flag {
            Flag::Server => Values { server: Some(value), ..self },
            Flag::User => Values { user: Some(value), ..self },
            Flag::PasswordFile => Values { password_file: Some(value), ..self },
            Flag::TimeoutMs => Values { timeout_ms: Some(value), ..self },
            Flag::State => Values { state: Some(value), ..self },
            Flag::Into => Values { into: Some(value), ..self },
            Flag::Prefix => Values { prefix: Some(value), ..self },
            Flag::Pool => Values { pool: Some(value), ..self },
            Flag::Agent => Values { agent: Some(value), ..self },
            Flag::Kind => Values { kind: Some(value), ..self },
            Flag::MaxObjectBytes => Values { max_object_bytes: Some(value), ..self },
        }
    }

    /// These with the access flags nobody gave taken from the environment, where a variable set
    /// to nothing counts as unset.
    pub open spec fn filled(self, env: Environment) -> Values {
        Values {
            server: filled_one(self.server, text::view_of(env.server)),
            user: filled_one(self.user, text::view_of(env.user)),
            password_file: filled_one(self.password_file, text::view_of(env.password_file)),
            timeout_ms: filled_one(self.timeout_ms, text::view_of(env.timeout_ms)),
            ..self
        }
    }
}

/// A flag's value, or else what its variable holds.
pub open spec fn filled_one(given: Option<Seq<char>>, variable: Option<Seq<char>>) -> Option<
    Seq<char>,
> {
    match (given, variable) {
        (None, Some(found)) if found.len() > 0 => Some(found),
        _ => given,
    }
}

/// The bar an argument raises, where it raises one.
pub open spec fn bar_of(argument: Seq<char>) -> Option<Insist> {
    if argument == "--require-attested"@ {
        Some(Insist::Attested)
    } else if argument == "--require-cold-signed"@ {
        Some(Insist::ColdSigned)
    } else {
        None
    }
}

/// The flags that `arguments` give, added to `values`, up to the first that is none.
pub open spec fn read_flags(arguments: Seq<Seq<char>>, values: Values) -> Result<Values, ArgsFault>
    decreases arguments.len(),
{
    if arguments.len() == 0 {
        Ok(values)
    } else {
        match (bar_of(arguments[0]), Flag::of_spec(arguments[0])) {
            (Some(bar), _) => read_flags(
                arguments.skip(1),
                Values { insist: values.insist.higher_spec(bar), ..values },
            ),
            (None, Some(flag)) => if arguments.len() == 1 {
                Err(ArgsFault::MissingValue { flag: flag.spelled() })
            } else {
                read_flags(arguments.skip(2), values.with(flag, arguments[1]))
            },
            (None, None) => Err(ArgsFault::Unknown { argument: arguments[0] }),
        }
    }
}

/// What a run is, over plain values.
pub struct Plan {
    pub command: Task,
    pub server: Seq<char>,
    pub user: Seq<char>,
    pub password_file: Seq<char>,
    pub timeout_ms: int,
    pub prefix: Seq<char>,
    pub selection: select::Choice,
    pub max_object_bytes: int,
    pub insist: Insist,
}

/// What a run does, over plain values.
pub enum Task {
    List,
    Sync { state: Seq<char>, into: Seq<char> },
}

impl Task {
    /// How a command is named.
    pub open spec fn spelled(self) -> Seq<char> {
        match self {
            Task::List => "list"@,
            Task::Sync { .. } => "sync"@,
        }
    }
}

impl View for Command {
    type V = Task;

    open spec fn view(&self) -> Task {
        match *self {
            Command::List => Task::List,
            Command::Sync { state, into } => Task::Sync { state: state@, into: into@ },
        }
    }
}

impl View for Args {
    type V = Plan;

    open spec fn view(&self) -> Plan {
        Plan {
            command: self.command@,
            server: self.access.server@,
            user: self.access.user@,
            password_file: self.access.password_file@,
            timeout_ms: self.access.timeout_ms@,
            prefix: self.prefix@,
            selection: self.selection@,
            max_object_bytes: self.verification.max_object_bytes@,
            insist: self.verification.insist,
        }
    }
}

/// A whole number above zero.
pub open spec fn positive(s: Seq<char>) -> Option<int> {
    match text::number(s, u64::MAX as int) {
        Some(n) if n > 0 => Some(n),
        _ => None,
    }
}

impl Values {
    /// The command that is named so, with what it needs.
    pub open spec fn task(self, command: Seq<char>) -> Result<Task, ArgsFault> {
        if command == "list"@ {
            if self.state is Some {
                Err(ArgsFault::NotForCommand { command, flag: "--state"@ })
            } else if self.into is Some {
                Err(ArgsFault::NotForCommand { command, flag: "--into"@ })
            } else if self.max_object_bytes is Some {
                Err(ArgsFault::NotForCommand { command, flag: "--max-object-bytes"@ })
            } else if self.insist != Insist::Nothing {
                Err(ArgsFault::NotForCommand { command, flag: "--require-attested"@ })
            } else {
                Ok(Task::List)
            }
        } else if command == "sync"@ {
            match (self.state, self.into) {
                (None, _) => Err(
                    ArgsFault::Missing { command, flag: "--state"@, variable: None },
                ),
                (_, None) => Err(ArgsFault::Missing { command, flag: "--into"@, variable: None }),
                (Some(state), Some(into)) => Ok(Task::Sync { state, into }),
            }
        } else {
            Err(ArgsFault::UnknownCommand { command })
        }
    }

    /// The first access flag that is missing.
    pub open spec fn missing_access(self, command: Seq<char>) -> Option<ArgsFault> {
        if self.timeout_ms is None {
            Some(missing(command, "--timeout-ms"@, ENV_TIMEOUT_MS@))
        } else if self.server is None {
            Some(missing(command, "--server"@, ENV_SERVER@))
        } else if self.user is None {
            Some(missing(command, "--user"@, ENV_USER@))
        } else if self.password_file is None {
            Some(missing(command, "--password-file"@, ENV_PASSWORD_FILE@))
        } else {
            None
        }
    }

    /// The three key-segment filters.
    pub open spec fn choice(self) -> Result<select::Choice, ArgsFault> {
        match pool_filter(self.pool) {
            Err(fault) => Err(fault),
            Ok(pool) => match agent_filter(self.agent) {
                Err(fault) => Err(fault),
                Ok(agent) => match kind_filter(self.kind) {
                    Err(fault) => Err(fault),
                    Ok(kind) => Ok(select::Choice { pool, agent, kind }),
                },
            },
        }
    }

    /// The bound on one object.
    pub open spec fn bound(self) -> Result<int, ArgsFault> {
        match self.max_object_bytes {
            None => Ok(DEFAULT_MAX_OBJECT_BYTES as int),
            Some(value) => match positive(value) {
                Some(n) => Ok(n),
                None => Err(ArgsFault::NotAByteCount { flag: "--max-object-bytes"@, value }),
            },
        }
    }

    /// The run these flags ask `command` for, or the first thing wrong with them.
    pub open spec fn plan(self, command: Seq<char>) -> Result<Plan, ArgsFault> {
        match self.task(command) {
            Err(fault) => Err(fault),
            Ok(task) => match self.missing_access(command) {
                Some(fault) => Err(fault),
                None => match positive(self.timeout_ms->0) {
                    None => Err(
                        ArgsFault::NotADuration { flag: "--timeout-ms"@, value: self.timeout_ms->0 },
                    ),
                    Some(timeout_ms) => match self.choice() {
                        Err(fault) => Err(fault),
                        Ok(selection) => match self.bound() {
                            Err(fault) => Err(fault),
                            Ok(max_object_bytes) => Ok(
                                Plan {
                                    command: task,
                                    server: self.server->0,
                                    user: self.user->0,
                                    password_file: self.password_file->0,
                                    timeout_ms,
                                    prefix: match self.prefix {
                                        Some(prefix) if prefix.len() > 0 => prefix,
                                        _ => KEY_PREFIX@,
                                    },
                                    selection,
                                    max_object_bytes,
                                    insist: self.insist,
                                },
                            ),
                        },
                    },
                },
            },
        }
    }
}

/// An access flag that neither an argument nor a variable carries.
pub open spec fn missing(command: Seq<char>, flag: Seq<char>, variable: Seq<char>) -> ArgsFault {
    ArgsFault::Missing { command, flag, variable: Some(variable) }
}

/// The pool a `--pool` names.
pub open spec fn pool_filter(value: Option<Seq<char>>) -> Result<Option<Seq<u8>>, ArgsFault> {
    match value {
        None => Ok(None),
        Some(value) => match pool::pool_of_bech32(value) {
            Ok(pool) => Ok(Some(pool)),
            Err(fault) => Err(
                ArgsFault::NotAFilter {
                    flag: "--pool"@,
                    value,
                    reason: pool::pool_fault_text(fault),
                },
            ),
        },
    }
}

/// The agent an `--agent` names.
pub open spec fn agent_filter(value: Option<Seq<char>>) -> Result<Option<Seq<char>>, ArgsFault> {
    match value {
        None => Ok(None),
        Some(value) => if agent::is_slug(value) {
            Ok(Some(value))
        } else {
            Err(
                ArgsFault::NotAFilter {
                    flag: "--agent"@,
                    value,
                    reason: agent::agent_fault_text(value),
                },
            )
        },
    }
}

/// The kind a `--kind` names.
pub open spec fn kind_filter(value: Option<Seq<char>>) -> Result<Option<Kind>, ArgsFault> {
    match value {
        None => Ok(None),
        Some(value) => match key::kind_spelled(value) {
            Some(kind) => Ok(Some(kind)),
            None => Err(
                ArgsFault::NotAFilter {
                    flag: "--kind"@,
                    value,
                    reason: "the kinds a key names are metrics and logs"@,
                },
            ),
        },
    }
}

/// What was asked for, over plain values.
pub enum Asked {
    Help,
    Version,
    Run(Plan),
}

impl View for Invocation {
    type V = Asked;

    open spec fn view(&self) -> Asked {
        match *self {
            Invocation::Help => Asked::Help,
            Invocation::Version => Asked::Version,
            Invocation::Run(args) => Asked::Run(args@),
        }
    }
}

/// The first of the arguments that asks for an answer and not for a run.
pub open spec fn answer_asked(arguments: Seq<Seq<char>>) -> Option<Asked>
    decreases arguments.len(),
{
    if arguments.len() == 0 {
        None
    } else if arguments[0] == "--help"@ || arguments[0] == "-h"@ {
        Some(Asked::Help)
    } else if arguments[0] == "--version"@ {
        Some(Asked::Version)
    } else {
        answer_asked(arguments.skip(1))
    }
}

/// What the arguments ask for in an environment.
pub open spec fn invoked(arguments: Seq<Seq<char>>, env: Environment) -> Result<Asked, ArgsFault> {
    match answer_asked(arguments) {
        Some(asked) => Ok(asked),
        None => if arguments.len() == 0 {
            Err(ArgsFault::NoCommand)
        } else {
            match read_flags(arguments.skip(1), Values::none()) {
                Err(fault) => Err(fault),
                Ok(values) => match values.filled(env).plan(arguments[0]) {
                    Err(fault) => Err(fault),
                    Ok(plan) => Ok(Asked::Run(plan)),
                },
            }
        },
    }
}

impl Command {
    /// How this command is named.
    pub fn name(&self) -> (r: &'static str)
        ensures
            r@ == self@.spelled(),
    {
        match self {
            Command::List => "list",
            Command::Sync { .. } => "sync",
        }
    }
}

/// A flag's value that the command cannot do without.
fn required(value: &Option<String>, command: &'static str, flag: &'static str) -> (r: Result<
    String,
    ArgsError,
>)
    ensures
        match r {
            Ok(found) => text::view_of(*value) == Some(found@),
            Err(error) => value is None && error@ == (ArgsFault::Missing {
                command: command@,
                flag: flag@,
                variable: None,
            }),
        },
{
    match value {
        Some(found) => Ok(found.clone()),
        None => Err(ArgsError::Missing { command, flag, variable: None }),
    }
}

/// `required`, for the flags a variable can also carry.
fn access(
    value: &Option<String>,
    command: &'static str,
    flag: &'static str,
    variable: &'static str,
) -> (r: Result<String, ArgsError>)
    ensures
        match r {
            Ok(found) => text::view_of(*value) == Some(found@),
            Err(error) => value is None && error@ == missing(command@, flag@, variable@),
        },
{
    match value {
        Some(found) => Ok(found.clone()),
        None => Err(ArgsError::Missing { command, flag, variable: Some(variable) }),
    }
}

/// A whole number above zero.
fn positive_of(s: &str) -> (r: Option<NonZeroU64>)
    ensures
        match r {
            Some(n) => positive(s@) == Some(n@),
            None => positive(s@) is None,
        },
{
    match text::number_of(s, u64::MAX) {
        Some(n) => NonZeroU64::new(n),
        None => None,
    }
}

/// An optional text, owned.
fn filled_from(given: &mut Option<String>, variable: &Option<String>)
    ensures
        text::view_of(*final(given)) == filled_one(
            text::view_of(*old(given)),
            text::view_of(*variable),
        ),
{
    if given.is_none() {
        if let Some(found) = variable {
            if !found.as_str().is_empty() {
                *given = Some(found.clone());
            }
        }
    }
}

impl Given {
    /// No flag given.
    pub fn none() -> (r: Given)
        ensures
            r@ == Values::none(),
    {
        Given {
            server: None,
            user: None,
            password_file: None,
            timeout_ms: None,
            state: None,
            into: None,
            prefix: None,
            pool: None,
            agent: None,
            kind: None,
            max_object_bytes: None,
            insist: Insist::Nothing,
        }
    }

    /// Take one flag as given. A repeated one ends up with its last value.
    pub fn put(&mut self, flag: Flag, value: String)
        ensures
            final(self)@ == old(self)@.with(flag, value@),
    {
        match flag {
            Flag::Server => self.server = Some(value),
            Flag::User => self.user = Some(value),
            Flag::PasswordFile => self.password_file = Some(value),
            Flag::TimeoutMs => self.timeout_ms = Some(value),
            Flag::State => self.state = Some(value),
            Flag::Into => self.into = Some(value),
            Flag::Prefix => self.prefix = Some(value),
            Flag::Pool => self.pool = Some(value),
            Flag::Agent => self.agent = Some(value),
            Flag::Kind => self.kind = Some(value),
            Flag::MaxObjectBytes => self.max_object_bytes = Some(value),
        }
    }

    /// The access flags nobody gave, from the environment. An empty value is taken as unset: an
    /// exported-but-empty variable is not an endpoint.
    pub fn fill_from(&mut self, env: &Environment)
        ensures
            final(self)@ == old(self)@.filled(*env),
    {
        filled_from(&mut self.server, &env.server);
        filled_from(&mut self.user, &env.user);
        filled_from(&mut self.password_file, &env.password_file);
        filled_from(&mut self.timeout_ms, &env.timeout_ms);
    }

    /// The command that is named so, with what it needs.
    fn task(&self, command: &str) -> (r: Result<Command, ArgsError>)
        ensures
            match r {
                Ok(task) => self@.task(command@) == Ok::<Task, ArgsFault>(task@)
                    && task@.spelled() == command@,
                Err(error) => self@.task(command@) == Err::<Task, ArgsFault>(error@),
            },
    {
        if text::same(command, "list") {
            // Refused rather than ignored: a `list --into` reads as a download that would then
            // write nothing.
            if self.state.is_some() {
                return Err(ArgsError::NotForCommand { command: "list", flag: "--state" });
            }
            if self.into.is_some() {
                return Err(ArgsError::NotForCommand { command: "list", flag: "--into" });
            }
            if self.max_object_bytes.is_some() {
                return Err(
                    ArgsError::NotForCommand { command: "list", flag: "--max-object-bytes" },
                );
            }
            if self.insist != Insist::Nothing {
                return Err(
                    ArgsError::NotForCommand { command: "list", flag: "--require-attested" },
                );
            }
            Ok(Command::List)
        } else if text::same(command, "sync") {
            let state = required(&self.state, "sync", "--state")?;
            let into = required(&self.into, "sync", "--into")?;
            Ok(Command::Sync { state, into })
        } else {
            Err(ArgsError::UnknownCommand { command: String::from_str(command) })
        }
    }

    /// The run these flags ask `command` for, or the first thing wrong with them.
    pub fn into_args(self, command: &str) -> (r: Result<Args, ArgsError>)
        ensures
            match r {
                Ok(args) => self@.plan(command@) == Ok::<Plan, ArgsFault>(args@),
                Err(error) => self@.plan(command@) == Err::<Plan, ArgsFault>(error@),
            },
    {
        let command = self.task(command)?;
        let name = command.name();
        let timeout_ms = access(&self.timeout_ms, name, "--timeout-ms", ENV_TIMEOUT_MS)?;
        let server = access(&self.server, name, "--server", ENV_SERVER)?;
        let user = access(&self.user, name, "--user", ENV_USER)?;
        let password_file = access(
            &self.password_file,
            name,
            "--password-file",
            ENV_PASSWORD_FILE,
        )?;
        let timeout_ms = match positive_of(timeout_ms.as_str()) {
            Some(n) => n,
            None => {
                return Err(ArgsError::NotADuration { flag: "--timeout-ms", value: timeout_ms });
            },
        };
        let prefix = match &self.prefix {
            Some(asked) if !asked.as_str().is_empty() => asked.clone(),
            _ => String::from_str(KEY_PREFIX),
        };
        let selection = self.selection()?;
        let max_object_bytes = match &self.max_object_bytes {
            None => default_max_object_bytes(),
            Some(given) => match positive_of(given.as_str()) {
                Some(n) => n,
                None => {
                    return Err(
                        ArgsError::NotAByteCount {
                            flag: "--max-object-bytes",
                            value: given.clone(),
                        },
                    );
                },
            },
        };
        Ok(
            Args {
                command,
                access: Access { server, user, password_file, timeout_ms },
                prefix,
                selection,
                verification: Verification { max_object_bytes, insist: self.insist },
            },
        )
    }

    /// The three key-segment filters, each parsed by whatever owns its form, so a typo is refused
    /// here rather than selecting nothing at the archive.
    pub fn selection(&self) -> (r: Result<Selection, ArgsError>)
        ensures
            match r {
                Ok(selection) => self@.choice() == Ok::<select::Choice, ArgsFault>(selection@),
                Err(error) => self@.choice() == Err::<select::Choice, ArgsFault>(error@),
            },
    {
        let pool = match &self.pool {
            None => None,
            Some(value) => match PoolId::from_bech32(value.as_str()) {
                Ok(pool) => Some(pool),
                Err(error) => {
                    return Err(
                        ArgsError::NotAFilter {
                            flag: "--pool",
                            value: value.clone(),
                            reason: error.message(),
                        },
                    );
                },
            },
        };
        let agent = match &self.agent {
            None => None,
            Some(value) => match AgentId::parse(value.as_str()) {
                Ok(agent) => Some(agent),
                Err(error) => {
                    return Err(
                        ArgsError::NotAFilter {
                            flag: "--agent",
                            value: value.clone(),
                            reason: error.message(),
                        },
                    );
                },
            },
        };
        let kind = match &self.kind {
            None => None,
            Some(value) => match Kind::parse(value.as_str()) {
                Some(kind) => Some(kind),
                None => {
                    return Err(
                        ArgsError::NotAFilter {
                            flag: "--kind",
                            value: value.clone(),
                            reason: String::from_str("the kinds a key names are metrics and logs"),
                        },
                    );
                },
            },
        };
        Ok(Selection { pool, agent, kind })
    }
}

impl Invocation {
    /// What the arguments after the program name ask for, with `env` answering for the access
    /// flags none of them carried.
    ///
    /// `--help` and `--version` are answered wherever they are written, because that is where an
    /// operator writes them and a refusal there teaches nothing the answer would not have.
    pub fn parse(arguments: &[String], env: &Environment) -> (r: Result<Invocation, ArgsError>)
        ensures
            match r {
                Ok(invocation) => invoked(text::views(arguments@), *env) == Ok::<Asked, ArgsFault>(
                    invocation@,
                ),
                Err(error) => invoked(text::views(arguments@), *env) == Err::<Asked, ArgsFault>(
                    error@,
                ),
            },
    {
        let ghost words = text::views(arguments@);
        match Invocation::answer(arguments) {
            Some(asked) => {
                return Ok(asked);
            },
            None => {},
        }
        if arguments.len() == 0 {
            return Err(ArgsError::NoCommand);
        }
        let mut given = Given::none();
        let mut at: usize = 1;
        while at < arguments.len()
            invariant
                1 <= at <= arguments@.len(),
                words == text::views(arguments@),
                answer_asked(words) is None,
                read_flags(words.skip(1), Values::none()) == read_flags(
                    words.skip(at as int),
                    given@,
                ),
            decreases arguments@.len() - at,
        {
            let argument = &arguments[at];
            let ghost rest = words.skip(at as int);
            assert(rest[0] == argument@);
            assert(rest.skip(1) =~= words.skip(at + 1));
            // Each raises the bar and neither contradicts the other, so both given is the higher
            // one rather than a refusal.
            if text::same(argument.as_str(), "--require-attested") {
                given.insist = given.insist.higher(Insist::Attested);
                at += 1;
            } else if text::same(argument.as_str(), "--require-cold-signed") {
                given.insist = given.insist.higher(Insist::ColdSigned);
                at += 1;
            } else {
                match Flag::of(argument.as_str()) {
                    None => {
                        return Err(ArgsError::Unknown { argument: argument.clone() });
                    },
                    Some(flag) => {
                        if arguments.len() - at == 1 {
                            return Err(ArgsError::MissingValue { flag: flag.as_str() });
                        }
                        assert(rest[1] == arguments@[at + 1]@);
                        assert(rest.skip(2) =~= words.skip(at + 2));
                        given.put(flag, arguments[at + 1].clone());
                        at += 2;
                    },
                }
            }
        }
        assert(words.skip(at as int).len() == 0);
        given.fill_from(env);
        match given.into_args(arguments[0].as_str()) {
            Ok(args) => Ok(Invocation::Run(Box::new(args))),
            Err(error) => Err(error),
        }
    }

    /// The first of the arguments that asks for an answer and not for a run.
    fn answer(arguments: &[String]) -> (r: Option<Invocation>)
        ensures
            match r {
                Some(asked) => answer_asked(text::views(arguments@)) == Some(asked@),
                None => answer_asked(text::views(arguments@)) is None,
            },
    {
        let ghost words = text::views(arguments@);
        assert(words.skip(0) =~= words);
        for at in 0..arguments.len()
            invariant
                words == text::views(arguments@),
                answer_asked(words) == answer_asked(words.skip(at as int)),
        {
            let ghost rest = words.skip(at as int);
            assert(rest[0] == arguments@[at as int]@);
            assert(rest.skip(1) =~= words.skip(at + 1));
            let argument = arguments[at].as_str();
            if text::same(argument, "--help") || text::same(argument, "-h") {
                return Some(Invocation::Help);
            }
            if text::same(argument, "--version") {
                return Some(Invocation::Version);
            }
        }
        None
    }
}

/// Neither `--require` flag lowers the bar, whichever is written first, and both together are the
/// higher one.
pub proof fn bars_only_rise(values: Values, rest: Seq<Seq<char>>)
    ensures
        read_flags(seq!["--require-attested"@, "--require-cold-signed"@] + rest, values)
            == read_flags(rest, Values { insist: Insist::ColdSigned, ..values }),
        read_flags(seq!["--require-cold-signed"@, "--require-attested"@] + rest, values)
            == read_flags(rest, Values { insist: Insist::ColdSigned, ..values }),
{
    let a = seq!["--require-attested"@, "--require-cold-signed"@] + rest;
    let b = seq!["--require-cold-signed"@, "--require-attested"@] + rest;
    reveal_strlit("--require-attested");
    reveal_strlit("--require-cold-signed");
    assert("--require-attested"@ != "--require-cold-signed"@) by {
        assert("--require-attested"@.len() != "--require-cold-signed"@.len());
    }
    reveal_with_fuel(read_flags, 3);
    assert(a.skip(1).skip(1) =~= rest);
    assert(b.skip(1).skip(1) =~= rest);
}

/// A flag that is given twice ends up with its last value.
pub proof fn last_value_wins(values: Values, flag: Flag, first: Seq<char>, last: Seq<char>)
    ensures
        values.with(flag, first).with(flag, last) == values.with(flag, last),
{
}

/// A flag wins over its variable: where every access flag is given the environment changes
/// nothing.
pub proof fn flags_win_over_variables(values: Values, env: Environment)
    requires
        values.server is Some,
        values.user is Some,
        values.password_file is Some,
        values.timeout_ms is Some,
    ensures
        values.filled(env) == values,
{
}

/// A flag is read as it is written, and is no bar.
pub proof fn a_flag_is_read_as_written(flag: Flag)
    ensures
        Flag::of_spec(flag.spelled()) == Some(flag),
        bar_of(flag.spelled()) is None,
{
    reveal_strlit("--server");
    reveal_strlit("--user");
    reveal_strlit("--password-file");
    reveal_strlit("--timeout-ms");
    reveal_strlit("--state");
    reveal_strlit("--into");
    reveal_strlit("--prefix");
    reveal_strlit("--pool");
    reveal_strlit("--agent");
    reveal_strlit("--kind");
    reveal_strlit("--max-object-bytes");
    reveal_strlit("--require-attested");
    reveal_strlit("--require-cold-signed");
    assert("--server"@[2] == 's' && "--prefix"@[2] == 'p');
    assert("--user"@[2] == 'u' && "--into"@[2] == 'i' && "--pool"@[2] == 'p' && "--kind"@[2]
        == 'k');
    assert("--state"@[2] == 's' && "--agent"@[2] == 'a');
    assert("--max-object-bytes"@[2] == 'm' && "--require-attested"@[2] == 'r'
        && "--require-cold-signed"@[2] == 'r');
    assert("--server"@.len() == 8 && "--prefix"@.len() == 8 && "--user"@.len() == 6
        && "--into"@.len() == 6 && "--pool"@.len() == 6 && "--kind"@.len() == 6 && "--state"@.len()
        == 7 && "--agent"@.len() == 7 && "--password-file"@.len() == 15 && "--timeout-ms"@.len()
        == 12 && "--max-object-bytes"@.len() == 18 && "--require-attested"@.len() == 18
        && "--require-cold-signed"@.len() == 21);
}

impl Values {
    /// What was given for a flag.
    pub open spec fn given(self, flag: Flag) -> Option<Seq<char>> {
        match flag {
            Flag::Server => self.server,
            Flag::User => self.user,
            Flag::PasswordFile => self.password_file,
            Flag::TimeoutMs => self.timeout_ms,
            Flag::State => self.state,
            Flag::Into => self.into,
            Flag::Prefix => self.prefix,
            Flag::Pool => self.pool,
            Flag::Agent => self.agent,
            Flag::Kind => self.kind,
            Flag::MaxObjectBytes => self.max_object_bytes,
        }
    }
}

/// A flag's value is given for that flag, and for no other; the bar stays where it was.
pub proof fn a_flag_gives_its_own_value(values: Values, flag: Flag, value: Seq<char>, other: Flag)
    ensures
        values.with(flag, value).given(flag) == Some(value),
        other != flag ==> values.with(flag, value).given(other) == values.given(other),
        values.with(flag, value).insist == values.insist,
        Values::none().given(flag) is None,
        Values::none().insist == Insist::Nothing,
{
}

/// Arguments are read to their end: what stands behind arguments that read is read in turn, with
/// all that was given before it.
pub proof fn reading_goes_on(before: Seq<Seq<char>>, behind: Seq<Seq<char>>, values: Values)
    requires
        read_flags(before, values) is Ok,
    ensures
        read_flags(before + behind, values) == read_flags(behind, read_flags(before, values)->Ok_0),
    decreases before.len(),
{
    let all = before + behind;
    if before.len() == 0 {
        assert(all =~= behind);
    } else {
        assert(all[0] == before[0]);
        match (bar_of(before[0]), Flag::of_spec(before[0])) {
            (Some(bar), _) => {
                assert(all.skip(1) =~= before.skip(1) + behind);
                reading_goes_on(
                    before.skip(1),
                    behind,
                    Values { insist: values.insist.higher_spec(bar), ..values },
                );
            },
            (None, Some(flag)) => {
                assert(all[1] == before[1]);
                assert(all.skip(2) =~= before.skip(2) + behind);
                reading_goes_on(before.skip(2), behind, values.with(flag, before[1]));
            },
            (None, None) => {},
        }
    }
}

/// A flag behind arguments that read gives its value and changes nothing else that they gave; it
/// needs one. A bar behind them is kept unless they set a higher. Anything else is refused by name.
pub proof fn one_argument_more(before: Seq<Seq<char>>, values: Values, flag: Flag, value: Seq<char>)
    requires
        read_flags(before, values) is Ok,
    ensures
        ({
            let so_far = read_flags(before, values)->Ok_0;
            &&& read_flags(before + seq![flag.spelled(), value], values) == Ok::<Values, ArgsFault>(
                so_far.with(flag, value),
            )
            &&& read_flags(before + seq![flag.spelled()], values) == Err::<Values, ArgsFault>(
                ArgsFault::MissingValue { flag: flag.spelled() },
            )
            &&& read_flags(before + seq!["--require-attested"@], values) == Ok::<
                Values,
                ArgsFault,
            >(Values { insist: so_far.insist.higher_spec(Insist::Attested), ..so_far })
            &&& read_flags(before + seq!["--require-cold-signed"@], values) == Ok::<
                Values,
                ArgsFault,
            >(Values { insist: so_far.insist.higher_spec(Insist::ColdSigned), ..so_far })
            &&& bar_of(value) is None && Flag::of_spec(value) is None ==> read_flags(
                before + seq![value],
                values,
            ) == Err::<Values, ArgsFault>(ArgsFault::Unknown { argument: value })
        }),
{
    a_flag_is_read_as_written(flag);
    reading_goes_on(before, seq![flag.spelled(), value], values);
    reading_goes_on(before, seq![flag.spelled()], values);
    reading_goes_on(before, seq!["--require-attested"@], values);
    reading_goes_on(before, seq!["--require-cold-signed"@], values);
    reading_goes_on(before, seq![value], values);
    reveal_strlit("--require-attested");
    reveal_strlit("--require-cold-signed");
    assert("--require-attested"@.len() != "--require-cold-signed"@.len());
    reveal_with_fuel(read_flags, 3);
    assert(seq![flag.spelled(), value].skip(2) =~= Seq::<Seq<char>>::empty());
    assert(seq!["--require-attested"@].skip(1) =~= Seq::<Seq<char>>::empty());
    assert(seq!["--require-cold-signed"@].skip(1) =~= Seq::<Seq<char>>::empty());
}

/// A variable stands in for a flag that was not given, where it holds something; nothing else does,
/// and it changes nothing else.
pub proof fn a_variable_stands_in(values: Values, env: Environment, flag: Flag)
    ensures
        ({
            let filled = values.filled(env);
            let variable = match flag {
                Flag::Server => text::view_of(env.server),
                Flag::User => text::view_of(env.user),
                Flag::PasswordFile => text::view_of(env.password_file),
                Flag::TimeoutMs => text::view_of(env.timeout_ms),
                _ => None,
            };
            &&& values.given(flag) is Some ==> filled.given(flag) == values.given(flag)
            &&& values.given(flag) is None && variable is Some && variable->0.len() > 0
                ==> filled.given(flag) == variable
            &&& values.given(flag) is None && (variable is None || variable->0.len() == 0)
                ==> filled.given(flag) is None
            &&& filled.insist == values.insist
        }),
{
}

/// `list` takes nothing that is about files, `sync` needs both of its places, and there is no other
/// command.
pub proof fn each_command_takes_its_own(values: Values, command: Seq<char>)
    ensures
        values.task(command) == Ok::<Task, ArgsFault>(Task::List) <==> command == "list"@
            && values.state is None && values.into is None && values.max_object_bytes is None
            && values.insist == Insist::Nothing,
        values.task(command) matches Ok(Task::Sync { state, into }) ==> command == "sync"@
            && values.state == Some(state) && values.into == Some(into),
        command == "sync"@ && values.state is Some && values.into is Some ==> values.task(
            command,
        ) is Ok,
        command != "list"@ && command != "sync"@ ==> values.task(command) == Err::<Task, ArgsFault>(
            ArgsFault::UnknownCommand { command },
        ),
{
    reveal_strlit("list");
    reveal_strlit("sync");
    assert("list"@[0] == 'l' && "sync"@[0] == 's');
}

/// A plan is what was asked for, each part from its own flag, and it is made exactly where every
/// part of it reads.
pub proof fn a_plan_is_what_was_asked(values: Values, command: Seq<char>)
    ensures
        ({
            let plan = values.plan(command);
            &&& plan is Ok <==> {
                &&& values.task(command) is Ok
                &&& values.server is Some && values.user is Some && values.password_file is Some
                &&& values.timeout_ms is Some && positive(values.timeout_ms->0) is Some
                &&& values.pool is None || pool::pool_of_bech32(values.pool->0) is Ok
                &&& values.agent is None || agent::is_slug(values.agent->0)
                &&& values.kind is None || key::kind_spelled(values.kind->0) is Some
                &&& values.max_object_bytes is None || positive(values.max_object_bytes->0) is Some
            }
            &&& plan is Ok ==> {
                let made = plan->Ok_0;
                &&& Ok::<Task, ArgsFault>(made.command) == values.task(command)
                &&& Some(made.server) == values.server
                &&& Some(made.user) == values.user
                &&& Some(made.password_file) == values.password_file
                &&& positive(values.timeout_ms->0) == Some(made.timeout_ms)
                &&& made.insist == values.insist
                &&& values.prefix is Some && values.prefix->0.len() > 0 ==> Some(made.prefix)
                    == values.prefix
                &&& values.prefix is None || values.prefix->0.len() == 0 ==> made.prefix
                    == KEY_PREFIX@
                &&& made.selection.pool is Some <==> values.pool is Some
                &&& values.pool is Some ==> pool::pool_of_bech32(values.pool->0) == Ok::<
                    Seq<u8>,
                    pool::PoolIdFault,
                >(made.selection.pool->0)
                &&& made.selection.agent == values.agent
                &&& made.selection.kind is Some <==> values.kind is Some
                &&& values.kind is Some ==> made.selection.kind->0.spelled() == values.kind->0
                &&& values.max_object_bytes is None ==> made.max_object_bytes == 16_777_216
                &&& values.max_object_bytes is Some ==> positive(values.max_object_bytes->0)
                    == Some(made.max_object_bytes)
            }
        }),
{
}

/// A positive number reads back, zero is none, and neither is one that no counter holds.
pub proof fn a_positive_number_reads_back(n: int)
    requires
        0 <= n,
    ensures
        0 < n <= u64::MAX ==> positive(text::decimal(n)) == Some(n),
        n == 0 || n > u64::MAX ==> positive(text::decimal(n)) is None,
{
    text::a_number_reads_back(n, u64::MAX as int);
}

/// The usage and the version are answered wherever they are asked for, whatever else the arguments
/// say, and the first that is asked for is the one; where neither is asked for, neither is
/// answered.
pub proof fn help_is_answered_anywhere(
    before: Seq<Seq<char>>,
    behind: Seq<Seq<char>>,
    env: Environment,
)
    requires
        forall|i: int|
            0 <= i < before.len() ==> #[trigger] before[i] != "--help"@ && before[i] != "-h"@
                && before[i] != "--version"@,
    ensures
        invoked(before + seq!["--help"@] + behind, env) == Ok::<Asked, ArgsFault>(Asked::Help),
        invoked(before + seq!["-h"@] + behind, env) == Ok::<Asked, ArgsFault>(Asked::Help),
        invoked(before + seq!["--version"@] + behind, env) == Ok::<Asked, ArgsFault>(
            Asked::Version,
        ),
        invoked(before, env) matches Ok(asked) ==> asked is Run,
    decreases before.len(),
{
    reveal_strlit("--help");
    reveal_strlit("-h");
    reveal_strlit("--version");
    assert("--help"@.len() == 6 && "-h"@.len() == 2 && "--version"@.len() == 9);
    let a = before + seq!["--help"@] + behind;
    let b = before + seq!["-h"@] + behind;
    let c = before + seq!["--version"@] + behind;
    if before.len() == 0 {
        assert(a[0] == "--help"@ && b[0] == "-h"@ && c[0] == "--version"@);
    } else {
        let rest = before.skip(1);
        assert(a[0] == before[0] && b[0] == before[0] && c[0] == before[0]);
        assert(a.skip(1) =~= rest + seq!["--help"@] + behind);
        assert(b.skip(1) =~= rest + seq!["-h"@] + behind);
        assert(c.skip(1) =~= rest + seq!["--version"@] + behind);
        assert forall|i: int| 0 <= i < rest.len() implies #[trigger] rest[i] != "--help"@ && rest[i]
            != "-h"@ && rest[i] != "--version"@ by {
            assert(rest[i] == before[i + 1]);
        }
        help_is_answered_anywhere(rest, behind, env);
    }
}

}
