//! The command line of the server: one flag and one subcommand.

use vstd::prelude::*;

use crate::outside;
use crate::text;

verus! {

/// Shipped config location; `--config` overrides it.
pub const DEFAULT_CONFIG_PATH: &'static str = "/etc/metsuke-server/config.toml";

pub const VERIFY_ARCHIVE: &'static str = "verify-archive";

pub const VERSION: &'static str = "0.1.0";

pub const USAGE: &'static str =
    "metsuke-server accepts signed telemetry submissions and archives them.

usage:
  metsuke-server [--config <path>]
  metsuke-server verify-archive [--config <path>]
  metsuke-server --help | --version

modes:
  serving           the default: accept submissions, answer the developer
                    routes, and render the onboarding page at /
  verify-archive    re-verify every object in the archive, report, and exit

flags:
  --config <path>   the server's configuration;
                    /etc/metsuke-server/config.toml by default

The listen address, the allowlist, the archive and the developer account are
all configuration. The S3 credentials are not: the server reads
AWS_ACCESS_KEY_ID and AWS_SECRET_ACCESS_KEY from its environment, so the
config file stays readable in the open. docs/deploying.md is the procedure.";

/// Where a refusal sends the operator, rather than printing all of `USAGE` on top of the error.
pub const HELP_HINT: &'static str = "try metsuke-server --help";

/// What the server was started with.
#[derive(Debug, PartialEq, Eq)]
pub struct Args {
    pub config: String,
    pub command: Command,
}

#[derive(Debug, Clone, Copy, PartialEq, Eq, Structural)]
pub enum Command {
    Serve,
    VerifyArchive,
}

/// Why the server does not run with what it was started with.
#[derive(Debug)]
pub enum ArgsError {
    Unknown { argument: String },
    MissingValue,
    TwoCommands { first: String, second: String },
}

/// What an `ArgsError` is, over plain values.
pub enum ArgsFault {
    Unknown { argument: Seq<char> },
    MissingValue,
    TwoCommands { first: Seq<char>, second: Seq<char> },
}

impl View for ArgsError {
    type V = ArgsFault;

    open spec fn view(&self) -> ArgsFault {
        match *self {
            ArgsError::Unknown { argument } => ArgsFault::Unknown { argument: argument@ },
            ArgsError::MissingValue => ArgsFault::MissingValue,
            ArgsError::TwoCommands { first, second } => ArgsFault::TwoCommands {
                first: first@,
                second: second@,
            },
        }
    }
}

impl ArgsFault {
    /// What an operator reads.
    pub open spec fn spelled(self) -> Seq<char> {
        match self {
            ArgsFault::Unknown { argument } => "unknown argument "@ + outside::quoted(argument)
                + "\n"@ + HELP_HINT@,
            ArgsFault::MissingValue => "--config needs a <path> value\n"@ + HELP_HINT@,
            ArgsFault::TwoCommands { first, second } => first + " and "@ + second
                + " cannot both run: name one\n"@ + HELP_HINT@,
        }
    }
}

impl ArgsError {
    /// What an operator reads.
    pub fn message(&self) -> (r: String)
        ensures
            r@ == self@.spelled(),
    {
        match self {
            ArgsError::Unknown { argument } => {
                let mut r = String::from_str("unknown argument ");
                r.append(outside::quote(argument.as_str()).as_str());
                r.append("\n");
                r.append(HELP_HINT);
                r
            },
            ArgsError::MissingValue => {
                let mut r = String::from_str("--config needs a <path> value\n");
                r.append(HELP_HINT);
                r
            },
            ArgsError::TwoCommands { first, second } => {
                let mut r = first.clone();
                r.append(" and ");
                r.append(second.as_str());
                r.append(" cannot both run: name one\n");
                r.append(HELP_HINT);
                r
            },
        }
    }
}

/// What arguments make, given the config path and the subcommand that stand so far. A second
/// subcommand is refused rather than silently winning over the first.
pub open spec fn read_on(args: Seq<Seq<char>>, config: Seq<char>, command: Command) -> Result<
    (Seq<char>, Command),
    ArgsFault,
>
    decreases args.len(),
{
    if args.len() == 0 {
        Ok((config, command))
    } else if args[0] == "--config"@ {
        if args.len() == 1 {
            Err(ArgsFault::MissingValue)
        } else {
            read_on(args.skip(2), args[1], command)
        }
    } else if args[0] == VERIFY_ARCHIVE@ {
        if command == Command::VerifyArchive {
            Err(ArgsFault::TwoCommands { first: VERIFY_ARCHIVE@, second: VERIFY_ARCHIVE@ })
        } else {
            read_on(args.skip(1), config, Command::VerifyArchive)
        }
    } else {
        Err(ArgsFault::Unknown { argument: args[0] })
    }
}

/// What the arguments after the program name make.
pub open spec fn read(args: Seq<Seq<char>>) -> Result<(Seq<char>, Command), ArgsFault> {
    read_on(args, DEFAULT_CONFIG_PATH@, Command::Serve)
}

impl Args {
    /// Parse the arguments after the program name.
    pub fn parse(args: &[String]) -> (r: Result<Args, ArgsError>)
        ensures
            match r {
                Ok(parsed) => read(text::views(args@)) == Ok::<(Seq<char>, Command), ArgsFault>(
                    (parsed.config@, parsed.command),
                ),
                Err(error) => read(text::views(args@)) == Err::<(Seq<char>, Command), ArgsFault>(
                    error@,
                ),
            },
    {
        let ghost all = text::views(args@);
        let length: usize = args.len();
        let mut config = String::from_str(DEFAULT_CONFIG_PATH);
        let mut command = Command::Serve;
        let mut i: usize = 0;
        assert(all.skip(0) =~= all);
        while i < length
            invariant
                length == args@.len(),
                i <= length,
                all == text::views(args@),
                read(all) == read_on(all.skip(i as int), config@, command),
            decreases length - i,
        {
            let ghost rest = all.skip(i as int);
            assert(rest[0] == args@[i as int]@);
            if text::same(args[i].as_str(), "--config") {
                if length - i == 1 {
                    return Err(ArgsError::MissingValue);
                }
                proof {
                    assert(rest[1] == args@[i + 1]@);
                    assert(rest.skip(2) =~= all.skip(i + 2));
                }
                config = args[i + 1].clone();
                i += 2;
            } else if text::same(args[i].as_str(), VERIFY_ARCHIVE) {
                if command == Command::VerifyArchive {
                    return Err(
                        ArgsError::TwoCommands {
                            first: String::from_str(VERIFY_ARCHIVE),
                            second: args[i].clone(),
                        },
                    );
                }
                assert(rest.skip(1) =~= all.skip(i + 1));
                command = Command::VerifyArchive;
                i += 1;
            } else {
                return Err(ArgsError::Unknown { argument: args[i].clone() });
            }
        }
        assert(all.skip(i as int) =~= seq![]);
        Ok(Args { config, command })
    }
}

/// What a run is asked for.
#[derive(Debug)]
pub enum Asked {
    Help,
    Version,
    Run(Result<Args, ArgsError>),
}

fn names(args: &[String], word: &str) -> (r: bool)
    ensures
        r == text::views(args@).contains(word@),
{
    let ghost all = text::views(args@);
    for i in 0..args.len()
        invariant
            all == text::views(args@),
            forall|j: int| 0 <= j < i ==> #[trigger] all[j] != word@,
    {
        assert(all[i as int] == args@[i as int]@);
        if text::same(args[i].as_str(), word) {
            assert(all.contains(all[i as int]));
            return true;
        }
    }
    false
}

/// What a run is asked for. Help and the version are answered wherever they appear, because that
/// is where an operator writes them.
pub fn asked(args: &[String]) -> (r: Asked)
    ensures
        r is Help <==> text::views(args@).contains("--help"@) || text::views(args@).contains(
            "-h"@,
        ),
        r is Version <==> !(r is Help) && text::views(args@).contains("--version"@),
        r matches Asked::Run(parsed) ==> match parsed {
            Ok(parsed) => read(text::views(args@)) == Ok::<(Seq<char>, Command), ArgsFault>(
                (parsed.config@, parsed.command),
            ),
            Err(error) => read(text::views(args@)) == Err::<(Seq<char>, Command), ArgsFault>(
                error@,
            ),
        },
{
    if names(args, "--help") || names(args, "-h") {
        return Asked::Help;
    }
    if names(args, "--version") {
        return Asked::Version;
    }
    Asked::Run(Args::parse(args))
}

/// The last config path given is the one that is read, whatever stands before it.
pub proof fn last_config_wins(before: Seq<Seq<char>>, path: Seq<char>, config: Seq<char>, command: Command)
    requires
        read_on(before, config, command) is Ok,
    ensures
        read_on(before + seq!["--config"@, path], config, command) == Ok::<
            (Seq<char>, Command),
            ArgsFault,
        >((path, (read_on(before, config, command)->Ok_0).1)),
    decreases before.len(),
{
    let all = before + seq!["--config"@, path];
    if before.len() == 0 {
        assert(all =~= seq!["--config"@, path]);
        assert(all[0] == "--config"@ && all[1] == path);
        assert(all.skip(2) =~= seq![]);
        assert(read_on(all.skip(2), path, command) is Ok);
    } else {
        assert(all[0] == before[0]);
        if before[0] == "--config"@ {
            assert(all[1] == before[1]);
            assert(all.skip(2) =~= before.skip(2) + seq!["--config"@, path]);
            last_config_wins(before.skip(2), path, before[1], command);
        } else {
            assert(all.skip(1) =~= before.skip(1) + seq!["--config"@, path]);
            last_config_wins(before.skip(1), path, config, Command::VerifyArchive);
        }
    }
}

/// Arguments are read to their end: what stands behind arguments that read is read in turn. The
/// command may be named once, before or behind the config.
pub proof fn reading_goes_on(
    before: Seq<Seq<char>>,
    behind: Seq<Seq<char>>,
    config: Seq<char>,
    command: Command,
)
    requires
        read_on(before, config, command) is Ok,
    ensures
        read_on(before + behind, config, command) == read_on(
            behind,
            (read_on(before, config, command)->Ok_0).0,
            (read_on(before, config, command)->Ok_0).1,
        ),
    decreases before.len(),
{
    let all = before + behind;
    if before.len() == 0 {
        assert(all =~= behind);
    } else {
        assert(all[0] == before[0]);
        if before[0] == "--config"@ {
            assert(all[1] == before[1]);
            assert(all.skip(2) =~= before.skip(2) + behind);
            reading_goes_on(before.skip(2), behind, before[1], command);
        } else {
            assert(all.skip(1) =~= before.skip(1) + behind);
            reading_goes_on(before.skip(1), behind, config, Command::VerifyArchive);
        }
    }
}

/// Without arguments the server serves from its default config; naming the command changes what is
/// done and not the config, and naming it again is refused; anything else is refused by name.
pub proof fn one_argument_more(before: Seq<Seq<char>>, argument: Seq<char>)
    requires
        read(before) is Ok,
    ensures
        read(Seq::empty()) == Ok::<(Seq<char>, Command), ArgsFault>(
            (DEFAULT_CONFIG_PATH@, Command::Serve),
        ),
        (read(before)->Ok_0).1 == Command::Serve ==> read(before + seq![VERIFY_ARCHIVE@]) == Ok::<
            (Seq<char>, Command),
            ArgsFault,
        >(((read(before)->Ok_0).0, Command::VerifyArchive)),
        (read(before)->Ok_0).1 == Command::VerifyArchive ==> read(before + seq![VERIFY_ARCHIVE@])
            == Err::<(Seq<char>, Command), ArgsFault>(
            ArgsFault::TwoCommands { first: VERIFY_ARCHIVE@, second: VERIFY_ARCHIVE@ },
        ),
        read(before + seq!["--config"@]) == Err::<(Seq<char>, Command), ArgsFault>(
            ArgsFault::MissingValue,
        ),
        argument != "--config"@ && argument != VERIFY_ARCHIVE@ ==> read(before + seq![argument])
            == Err::<(Seq<char>, Command), ArgsFault>(ArgsFault::Unknown { argument }),
{
    reading_goes_on(before, seq![VERIFY_ARCHIVE@], DEFAULT_CONFIG_PATH@, Command::Serve);
    reading_goes_on(before, seq!["--config"@], DEFAULT_CONFIG_PATH@, Command::Serve);
    reading_goes_on(before, seq![argument], DEFAULT_CONFIG_PATH@, Command::Serve);
    reveal_strlit("--config");
    reveal_strlit("verify-archive");
    assert("--config"@.len() == 8 && VERIFY_ARCHIVE@.len() == 14);
    reveal_with_fuel(read_on, 2);
    assert(seq![VERIFY_ARCHIVE@].skip(1) =~= Seq::<Seq<char>>::empty());
}

}
