//! What the pages read out of the files the project ships, so that none of it is repeated in them:
//! the paths a unit looks at, the endpoint a config names, what a working agent prints.

use vstd::prelude::*;

use crate::outside;
use crate::path;
use crate::search;
use crate::server::applications::{METADATA_KEY, METADATA_LABEL};
use crate::server::instructions::markup;
use crate::server::instructions::markup::{broken, Broken};
use crate::text;

verus! {

/// How the agent's startup dump of every resolved setting begins, which is the line the page shows
/// cut short.
pub const CONFIG_LINE: &'static str = "config: ";

/// How many bytes of that line are shown: enough to recognise it by when it appears in a terminal.
pub const SHOWN: usize = 52;

/// Which path out of a unit's `ExecStart` a step needs.
#[derive(Debug, Clone, Copy, PartialEq, Eq, Structural)]
pub enum ExecStartField {
    Binary,
    Config,
}

/// What stands behind a prefix in the first line that begins with it.
pub open spec fn first_behind(lines: Seq<Seq<char>>, prefix: Seq<char>) -> Option<Seq<char>>
    decreases lines.len(),
{
    if lines.len() == 0 {
        None
    } else {
        match text::after_prefix(lines[0], prefix) {
            Some(behind) => Some(behind),
            None => first_behind(lines.skip(1), prefix),
        }
    }
}

fn find_behind(unit: &str, prefix: &str) -> (r: Option<String>)
    ensures
        text::view_of(r) == first_behind(search::lines_of(unit@), prefix@),
{
    let lines = search::lines(unit);
    let ghost all = text::views(lines@);
    assert(all.skip(0) =~= all);
    for i in 0..lines.len()
        invariant
            all == text::views(lines@),
            all == search::lines_of(unit@),
            first_behind(all, prefix@) == first_behind(all.skip(i as int), prefix@),
    {
        let ghost rest = all.skip(i as int);
        assert(rest[0] == lines@[i as int]@);
        assert(rest.skip(1) =~= all.skip(i + 1));
        let behind = text::strip_prefix(lines[i].as_str(), prefix);
        if behind.is_some() {
            return behind;
        }
    }
    None
}

/// The word behind the first `--config`.
pub open spec fn config_word(words: Seq<Seq<char>>) -> Option<Seq<char>>
    decreases words.len(),
{
    if words.len() == 0 {
        None
    } else if words[0] == "--config"@ {
        if words.len() > 1 {
            Some(words[1])
        } else {
            None
        }
    } else {
        config_word(words.skip(1))
    }
}

/// The path out of a unit's `ExecStart` that a field names, or why there is none.
pub open spec fn command_path(unit: Seq<char>, field: ExecStartField) -> Result<
    Seq<char>,
    Seq<char>,
> {
    match first_behind(search::lines_of(unit), "ExecStart="@) {
        None => Err("the shipped unit has no ExecStart"@),
        Some(command) => {
            let words = search::words_of(command);
            let found = match field {
                ExecStartField::Binary => if words.len() > 0 {
                    Some(words[0])
                } else {
                    None
                },
                ExecStartField::Config => config_word(words),
            };
            match found {
                Some(path) => Ok(path),
                None => Err("the shipped unit's ExecStart does not name the binary and its config"@),
            }
        },
    }
}

/// Where the unit says the binary and its config live. Read out of the unit rather than repeated,
/// so the install and configure steps put things exactly where the unit will look for them.
pub fn exec_start(unit: &str, field: ExecStartField) -> (r: Result<String, Broken>)
    ensures
        match r {
            Ok(path) => command_path(unit@, field) == Ok::<Seq<char>, Seq<char>>(path@),
            Err(error) => command_path(unit@, field) == Err::<Seq<char>, Seq<char>>(error@),
        },
{
    let command = match find_behind(unit, "ExecStart=") {
        Some(command) => command,
        None => {
            return Err(broken("the shipped unit has no ExecStart"));
        },
    };
    let words = search::words(command.as_str());
    let ghost all = text::views(words@);
    match field {
        ExecStartField::Binary => {
            if words.len() > 0 {
                assert(all[0] == words@[0]@);
                return Ok(words[0].clone());
            }
        },
        ExecStartField::Config => {
            assert(all.skip(0) =~= all);
            for i in 0..words.len()
                invariant
                    all == text::views(words@),
                    field == ExecStartField::Config,
                    first_behind(search::lines_of(unit@), "ExecStart="@) == Some(command@),
                    all == search::words_of(command@),
                    config_word(all) == config_word(all.skip(i as int)),
            {
                let ghost rest = all.skip(i as int);
                assert(rest[0] == words@[i as int]@);
                assert(rest.skip(1) =~= all.skip(i + 1));
                if text::same(words[i].as_str(), "--config") {
                    if i + 1 < words.len() {
                        assert(rest[1] == words@[i + 1]@);
                        return Ok(words[i + 1].clone());
                    }
                    return Err(
                        broken(
                            "the shipped unit's ExecStart does not name the binary and its config",
                        ),
                    );
                }
            }
        },
    }
    Err(broken("the shipped unit's ExecStart does not name the binary and its config"))
}

/// Where a unit expects the signing key, or why it says nowhere.
pub open spec fn key_source(unit: Seq<char>) -> Result<Seq<char>, Seq<char>> {
    match first_behind(search::lines_of(unit), "LoadCredential="@) {
        None => Err("the shipped unit does not load the signing key as a credential"@),
        Some(value) => match text::halves(value, ':') {
            Some((_, source)) => Ok(source),
            None => Err("the shipped unit does not load the signing key as a credential"@),
        },
    }
}

/// Where the unit expects the signing key. Read out of `LoadCredential=` for the same reason the
/// paths are read out of `ExecStart=`.
pub fn credential_source(unit: &str) -> (r: Result<String, Broken>)
    ensures
        match r {
            Ok(source) => key_source(unit@) == Ok::<Seq<char>, Seq<char>>(source@),
            Err(error) => key_source(unit@) == Err::<Seq<char>, Seq<char>>(error@),
        },
{
    if let Some(value) = find_behind(unit, "LoadCredential=") {
        if let Some((_, source)) = text::split_once(value.as_str(), ':') {
            return Ok(source);
        }
    }
    Err(broken("the shipped unit does not load the signing key as a credential"))
}

/// The directory a path is in; the root where it names none.
pub open spec fn directory_of(path: Seq<char>) -> Seq<char> {
    match path::parent_of(path) {
        Some(parent) if parent.len() > 0 => parent,
        _ => "/"@,
    }
}

/// The directory a path is in, for the step that has to create it.
pub fn parent_of(path: &str) -> (r: String)
    ensures
        r@ == directory_of(path@),
{
    if let Some(parent) = path::parent(path) {
        if !text::is_empty(parent.as_str()) {
            return parent;
        }
    }
    String::from_str("/")
}

/// How many bytes a character has in UTF-8.
pub open spec fn width(c: char) -> int {
    let n = c as int;
    if n < 0x80 {
        1
    } else if n < 0x800 {
        2
    } else if n < 0x10000 {
        3
    } else {
        4
    }
}

fn width_of(c: char) -> (r: usize)
    ensures
        r == width(c),
        r <= 4,
{
    let n: u32 = c as u32;
    if n < 0x80 {
        1
    } else if n < 0x800 {
        2
    } else if n < 0x10000 {
        3
    } else {
        4
    }
}

/// How many bytes stand before a character of a line.
pub open spec fn offset(line: Seq<char>, i: int) -> int
    decreases i,
{
    if i <= 0 {
        0
    } else {
        offset(line, i - 1) + width(line[i - 1])
    }
}

/// The last comma among the first `i` characters of a line that is within what is shown; the line's
/// start where there is none.
pub open spec fn last_comma(line: Seq<char>, i: int) -> int
    decreases i,
{
    if i <= 0 {
        0
    } else if line[i - 1] == ',' && offset(line, i - 1) <= SHOWN {
        i - 1
    } else {
        last_comma(line, i - 1)
    }
}

/// A line of the recording as the page shows it. Only the config line is cut short: it is every
/// setting the agent resolved, and shown in full it would hide the lines the step is about. Cut at
/// a comma, so it never lands inside a value.
pub open spec fn shown_line(line: Seq<char>) -> Seq<char> {
    if text::begins(line, CONFIG_LINE@) {
        line.take(last_comma(line, line.len() as int) + 1) + " \u{2026}}"@
    } else {
        line
    }
}

/// The recording as the page shows it.
pub open spec fn shown_journal(journal: Seq<char>) -> Seq<char> {
    text::joined(
        search::lines_of(text::trimmed_end(journal)).map_values(
            |line: Seq<char>| shown_line(line),
        ),
        "\n"@,
    )
}

proof fn lemma_offset_rises(line: Seq<char>, i: int, j: int)
    requires
        0 <= i <= j,
    ensures
        offset(line, i) <= offset(line, j),
    decreases j - i,
{
    if i < j {
        lemma_offset_rises(line, i, j - 1);
    }
}

proof fn lemma_no_later_comma(line: Seq<char>, i: int, j: int)
    requires
        0 <= i <= j,
        offset(line, i) > SHOWN,
    ensures
        last_comma(line, j) == last_comma(line, i),
    decreases j - i,
{
    if i < j {
        lemma_offset_rises(line, i, j - 1);
        lemma_no_later_comma(line, i, j - 1);
    }
}

fn show_line(line: &str) -> (r: String)
    ensures
        r@ == shown_line(line@),
{
    if !text::starts_with(line, CONFIG_LINE) {
        return String::from_str(line);
    }
    proof {
        reveal_strlit("config: ");
    }
    let x = text::chars_of(line);
    let mut before: usize = 0;
    let mut head: usize = 0;
    let mut i: usize = 0;
    while i < x.len() && before <= SHOWN
        invariant
            x@ == line@,
            x@.len() > 0,
            i <= x@.len(),
            before == offset(line@, i as int),
            before <= SHOWN + 4,
            head < x@.len(),
            head == last_comma(line@, i as int),
        decreases x@.len() - i,
    {
        let c = x[i];
        if c == ',' {
            head = i;
        }
        before = before + width_of(c);
        i += 1;
    }
    proof {
        if i < x@.len() {
            lemma_no_later_comma(line@, i as int, line@.len() as int);
        }
    }
    let mut r = text::text_of(text::part(x.as_slice(), 0, head + 1).as_slice());
    assert(r@ =~= line@.take(head + 1));
    r.append(" \u{2026}}");
    r
}

/// The recording as the page shows it: see `shown_line`.
pub fn journal_shown(journal: &str) -> (r: String)
    ensures
        r@ == shown_journal(journal@),
{
    let lines = search::lines(search::trim_end(journal).as_str());
    let ghost all = text::views(lines@);
    let ghost show = |line: Seq<char>| shown_line(line);
    let mut shown: Vec<String> = Vec::new();
    for i in 0..lines.len()
        invariant
            all == text::views(lines@),
            show == (|line: Seq<char>| shown_line(line)),
            text::views(shown@) == all.take(i as int).map_values(show),
    {
        let ghost before = shown@;
        let one = show_line(lines[i].as_str());
        shown.push(one);
        assert(text::views(shown@) =~= text::views(before).push(one@));
        assert(all[i as int] == lines@[i as int]@);
        assert(text::views(shown@) =~= all.take(i + 1).map_values(show));
    }
    assert(all.take(all.len() as int) =~= all);
    text::join(shown.as_slice(), "\n")
}

/// The node endpoint the details page talks about, read once out of the example config so that it
/// cannot name two ports.
#[derive(Debug)]
pub struct MetricsEndpoint {
    pub url: String,
    pub host: String,
    pub port: u16,
}

/// What a `MetricsEndpoint` is, over plain values.
pub struct Endpoint {
    pub url: Seq<char>,
    pub host: Seq<char>,
    pub port: u16,
}

impl View for MetricsEndpoint {
    type V = Endpoint;

    open spec fn view(&self) -> Endpoint {
        Endpoint { url: self.url@, host: self.host@, port: self.port }
    }
}

/// The endpoint that a URL names, or why it names none. A port that the scheme already has is not
/// stated: it would render the node-config line as fact for a port the example never stated.
pub open spec fn endpoint_of(
    url: Seq<char>,
    parsed: Option<(Option<Seq<char>>, Option<u16>)>,
) -> Result<Endpoint, Seq<char>> {
    match parsed {
        None => Err("the example metrics_url does not parse as a URL"@),
        Some((None, _)) => Err("the example metrics_url has no host"@),
        Some((Some(_), None)) => Err("the example metrics_url has no port"@),
        Some((Some(host), Some(port))) => Ok(Endpoint { url, host, port }),
    }
}

/// The text of a field that a shipped config has to set, or why there is none.
pub open spec fn shipped_field(
    found: Result<Option<Seq<char>>, Seq<char>>,
    field: Seq<char>,
) -> Result<Seq<char>, Seq<char>> {
    match found {
        Err(reason) => Err("a shipped config does not parse as TOML: "@ + reason),
        Ok(None) => Err("a shipped config does not set "@ + field),
        Ok(Some(value)) => Ok(value),
    }
}

/// What a TOML reader found of a field, over plain values.
pub open spec fn found_view(found: Result<Option<String>, String>) -> Result<
    Option<Seq<char>>,
    Seq<char>,
> {
    match found {
        Ok(value) => Ok(text::view_of(value)),
        Err(reason) => Err(reason@),
    }
}

/// The text of a field that a shipped config has to set: see `shipped_field`.
pub fn field_of(found: Result<Option<String>, String>, field: &str) -> (r: Result<String, Broken>)
    ensures
        match r {
            Ok(value) => shipped_field(found_view(found), field@) == Ok::<Seq<char>, Seq<char>>(
                value@,
            ),
            Err(error) => shipped_field(found_view(found), field@) == Err::<Seq<char>, Seq<char>>(
                error@,
            ),
        },
{
    match found {
        Err(error) => {
            let mut reason = String::from_str("a shipped config does not parse as TOML: ");
            reason.append(error.as_str());
            Err(Broken { reason })
        },
        Ok(None) => {
            let mut reason = String::from_str("a shipped config does not set ");
            reason.append(field);
            Err(Broken { reason })
        },
        Ok(Some(value)) => Ok(value),
    }
}

/// What a URL reader found, over plain values.
pub open spec fn parsed_view(parsed: Option<(Option<String>, Option<u16>)>) -> Option<
    (Option<Seq<char>>, Option<u16>),
> {
    match parsed {
        Some((host, port)) => Some((text::view_of(host), port)),
        None => None,
    }
}

impl MetricsEndpoint {
    /// The endpoint that a URL names, once it was parsed or could not be: see `endpoint_of`.
    pub fn at(url: String, parsed: Option<(Option<String>, Option<u16>)>) -> (r: Result<
        MetricsEndpoint,
        Broken,
    >)
        ensures
            match r {
                Ok(endpoint) => endpoint_of(url@, parsed_view(parsed)) == Ok::<
                    Endpoint,
                    Seq<char>,
                >(endpoint@),
                Err(error) => endpoint_of(url@, parsed_view(parsed)) == Err::<Endpoint, Seq<char>>(
                    error@,
                ),
            },
    {
        match parsed {
            None => Err(broken("the example metrics_url does not parse as a URL")),
            Some((None, _)) => Err(broken("the example metrics_url has no host")),
            Some((Some(_), None)) => Err(broken("the example metrics_url has no port")),
            Some((Some(host), Some(port))) => Ok(MetricsEndpoint { url, host, port }),
        }
    }

    /// The endpoint that an example config names.
    pub open spec fn named_in(config: Seq<char>) -> Result<Endpoint, Seq<char>> {
        match shipped_field(outside::toml_text_of(config, "metrics_url"@), "metrics_url"@) {
            Err(reason) => Err(reason),
            Ok(url) => endpoint_of(url, outside::url_host_port_of(url)),
        }
    }

    /// The endpoint that an example config names.
    pub fn from_config(config_example: &str) -> (r: Result<MetricsEndpoint, Broken>)
        ensures
            match r {
                Ok(endpoint) => Self::named_in(config_example@) == Ok::<Endpoint, Seq<char>>(
                    endpoint@,
                ),
                Err(error) => Self::named_in(config_example@) == Err::<Endpoint, Seq<char>>(error@),
            },
    {
        let found = outside::toml_text(config_example, "metrics_url");
        match field_of(found, "metrics_url") {
            Err(error) => Err(error),
            Ok(url) => {
                let parsed = outside::url_host_port(url.as_str());
                MetricsEndpoint::at(url, parsed)
            },
        }
    }

    /// The URL as the config states it.
    pub fn url(&self) -> (r: &str)
        ensures
            r@ == self@.url,
    {
        self.url.as_str()
    }

    /// The one node-config change the agent needs, as JSON.
    pub fn backend_config(&self) -> (r: String)
        ensures
            r@ == self@.backend(),
    {
        let mut r = String::from_str(
            "{\n  \"TraceOptions\": {\n    \"\": { \"backends\": [\"Stdout MachineFormat\", \"PrometheusSimple ",
        );
        r.append(self.host.as_str());
        r.append(" ");
        r.append(text::decimal_of(self.port as u128).as_str());
        r.append("\"] }\n  }\n}");
        r
    }
}

impl Endpoint {
    /// The one node-config change the agent needs, as JSON. The node reads JSON wherever it reads
    /// YAML, and the empty-string key is unwieldy in YAML by hand.
    pub open spec fn backend(self) -> Seq<char> {
        "{\n  \"TraceOptions\": {\n    \"\": { \"backends\": [\"Stdout MachineFormat\", \"PrometheusSimple "@
            + self.host + " "@ + text::decimal(self.port as int) + "\"] }\n  }\n}"@
    }
}

/// The node namespaces the trace step gives an explicit severity. These are the node's own
/// namespaces, not the agent's selection prefixes.
pub open spec fn named_namespaces() -> Seq<Seq<char>> {
    seq![
        "Consensus.LeiosKernel"@,
        "Consensus.LeiosPeer"@,
        "Forge.Loop.AdoptedBlock"@,
        "ChainDB.AddBlockEvent.AddedToCurrentChain"@,
    ]
}

/// One namespace's entry in the node's config.
pub open spec fn namespace_entry(namespace: Seq<char>) -> Seq<char> {
    "\n    \""@ + namespace + "\": { \"severity\": \"Info\", \"maxFrequency\": 0 }"@
}

/// What a node has to be told before the trace namespaces reach a backend at all. Namespace keys
/// only: it holds no root entry, so merging it cannot disturb the one the backend step touched.
pub open spec fn trace_text() -> Seq<char> {
    "{\n  \"TraceOptions\": {"@ + text::joined(
        named_namespaces().map_values(|namespace: Seq<char>| namespace_entry(namespace)),
        ","@,
    ) + "\n  }\n}"@
}

fn entry(namespace: &str) -> (r: String)
    ensures
        r@ == namespace_entry(namespace@),
{
    let mut r = String::from_str("\n    \"");
    r.append(namespace);
    r.append("\": { \"severity\": \"Info\", \"maxFrequency\": 0 }");
    r
}

/// What a node has to be told before the trace namespaces reach a backend: see `trace_text`.
pub fn trace_config() -> (r: String)
    ensures
        r@ == trace_text(),
{
    let mut entries: Vec<String> = Vec::new();
    entries.push(entry("Consensus.LeiosKernel"));
    entries.push(entry("Consensus.LeiosPeer"));
    entries.push(entry("Forge.Loop.AdoptedBlock"));
    entries.push(entry("ChainDB.AddBlockEvent.AddedToCurrentChain"));
    assert(text::views(entries@) =~= named_namespaces().map_values(
        |namespace: Seq<char>| namespace_entry(namespace),
    ));
    let mut r = String::from_str("{\n  \"TraceOptions\": {");
    r.append(text::join(entries.as_slice(), ",").as_str());
    r.append("\n  }\n}");
    r
}

/// The metadata file that carries an application code on chain.
pub open spec fn metadata_text() -> Seq<char> {
    "{\""@ + text::decimal(METADATA_LABEL as int) + "\": {\""@ + METADATA_KEY@
        + "\": \"YOUR-CODE\"}}"@
}

/// The metadata file that carries an application code on chain.
pub fn metadata_json() -> (r: String)
    ensures
        r@ == metadata_text(),
{
    let mut r = String::from_str("{\"");
    r.append(text::decimal_of(METADATA_LABEL as u128).as_str());
    r.append("\": {\"");
    r.append(METADATA_KEY);
    r.append("\": \"YOUR-CODE\"}}");
    r
}

/// Reasons as code spans.
pub open spec fn reasons_text(reasons: Seq<Seq<char>>) -> Seq<char> {
    text::joined(
        reasons.map_values(
            |word: Seq<char>| "<code>"@ + markup::escaped(word) + "</code>"@,
        ),
        ", "@,
    )
}

/// Every reason a failed scrape can give, as code spans, in the order given.
pub fn failure_reasons(reasons: &[String]) -> (r: String)
    ensures
        r@ == reasons_text(text::views(reasons@)),
{
    let ghost all = text::views(reasons@);
    let ghost span = |word: Seq<char>| "<code>"@ + markup::escaped(word) + "</code>"@;
    let mut words: Vec<String> = Vec::new();
    for i in 0..reasons.len()
        invariant
            all == text::views(reasons@),
            span == (|word: Seq<char>| "<code>"@ + markup::escaped(word) + "</code>"@),
            text::views(words@) == all.take(i as int).map_values(span),
    {
        let ghost before = words@;
        let mut one = String::from_str("<code>");
        one.append(markup::escape(reasons[i].as_str()).as_str());
        one.append("</code>");
        words.push(one);
        assert(all[i as int] == reasons@[i as int]@);
        assert(text::views(words@) =~= text::views(before).push(one@));
        assert(text::views(words@) =~= all.take(i + 1).map_values(span));
    }
    assert(all.take(all.len() as int) =~= all);
    text::join(words.as_slice(), ", ")
}

/// Where the project is read and built from.
#[derive(Debug)]
pub struct Repository {
    url: String,
    path: String,
}

/// The path of a repository on GitHub.
pub open spec fn github_path(url: Seq<char>) -> Option<Seq<char>> {
    text::after_prefix(url, "https://github.com/"@)
}

impl Repository {
    #[verifier::type_invariant]
    spec fn well_formed(self) -> bool {
        github_path(self.url@) == Some(self.path@)
    }

    /// The URL it is browsed at.
    pub closed spec fn at(self) -> Seq<char> {
        self.url@
    }

    /// The repository at a URL on GitHub.
    pub fn new(url: String) -> (r: Result<Repository, Broken>)
        ensures
            match r {
                Ok(repository) => github_path(url@) is Some && repository.at() == url@,
                Err(error) => github_path(url@) is None && error@
                    == "the manifest's repository is not a GitHub URL"@,
            },
    {
        match text::strip_prefix(url.as_str(), "https://github.com/") {
            Some(path) => Ok(Repository { url, path }),
            None => Err(broken("the manifest's repository is not a GitHub URL")),
        }
    }

    /// The URL it is browsed at.
    pub fn url(&self) -> (r: &str)
        ensures
            r@ == self.at(),
    {
        self.url.as_str()
    }

    /// Where a document the pages link is read: the default branch, so a link stays right as the
    /// file changes.
    pub fn docs_prefix(&self) -> (r: String)
        ensures
            r@ == docs_text(self.at()),
    {
        let mut r = text::trim_end_char(self.url.as_str(), '/');
        r.append("/blob/main/");
        r
    }

    /// How the repository is named to `nix build`.
    pub fn flake_ref(&self) -> (r: String)
        ensures
            r@ == flake_text(self.at()),
    {
        proof {
            use_type_invariant(self);
        }
        let mut r = String::from_str("github:");
        r.append(self.path.as_str());
        r
    }
}

/// Where the documents of a repository are read.
pub open spec fn docs_text(url: Seq<char>) -> Seq<char> {
    text::without_trailing(url, '/') + "/blob/main/"@
}

/// How a repository on GitHub is named to `nix build`: by the path of its URL.
pub open spec fn flake_text(url: Seq<char>) -> Seq<char> {
    "github:"@ + match github_path(url) {
        Some(path) => path,
        None => seq![],
    }
}

/// A setting of a unit is what stands behind its name on the first line that begins with it.
pub proof fn the_first_line_of_a_setting_counts(
    prefix: Seq<char>,
    value: Seq<char>,
    other: Seq<char>,
    rest: Seq<Seq<char>>,
)
    requires
        !text::begins(other, prefix),
    ensures
        first_behind(seq![prefix + value] + rest, prefix) == Some(value),
        first_behind(seq![other] + rest, prefix) == first_behind(rest, prefix),
        first_behind(Seq::empty(), prefix) is None,
{
    let line = prefix + value;
    assert(line.take(prefix.len() as int) =~= prefix);
    assert(line.skip(prefix.len() as int) =~= value);
    assert((seq![line] + rest)[0] == line);
    assert((seq![other] + rest)[0] == other);
    assert((seq![other] + rest).skip(1) =~= rest);
}

/// A unit names its binary by the first word of its command, and its config by the word behind the
/// first `--config`; it loads its key from what stands behind the credential's name.
pub proof fn a_unit_names_its_paths(
    unit: Seq<char>,
    command: Seq<char>,
    credential: Seq<char>,
    source: Seq<char>,
    i: int,
)
    requires
        first_behind(search::lines_of(unit), "ExecStart="@) == Some(command),
        first_behind(search::lines_of(unit), "LoadCredential="@) == Some(
            credential + seq![':'] + source,
        ),
        !credential.contains(':'),
    ensures
        search::words_of(command).len() > 0 ==> command_path(unit, ExecStartField::Binary) == Ok::<
            Seq<char>,
            Seq<char>,
        >(search::words_of(command)[0]),
        0 <= i < search::words_of(command).len() - 1 && search::words_of(command)[i] == "--config"@
            && (forall|j: int|
            0 <= j < i ==> #[trigger] search::words_of(command)[j] != "--config"@) ==> command_path(
            unit,
            ExecStartField::Config,
        ) == Ok::<Seq<char>, Seq<char>>(search::words_of(command)[i + 1]),
        key_source(unit) == Ok::<Seq<char>, Seq<char>>(source),
{
    let words = search::words_of(command);
    text::lemma_halves(credential, ':', source);
    if 0 <= i < words.len() - 1 && words[i] == "--config"@ && (forall|j: int|
        0 <= j < i ==> #[trigger] words[j] != "--config"@) {
        lemma_config_word(words, i);
    }
}

proof fn lemma_config_word(words: Seq<Seq<char>>, i: int)
    requires
        0 <= i < words.len() - 1,
        words[i] == "--config"@,
        forall|j: int| 0 <= j < i ==> #[trigger] words[j] != "--config"@,
    ensures
        config_word(words) == Some(words[i + 1]),
    decreases i,
{
    if i > 0 {
        let rest = words.skip(1);
        assert forall|j: int| 0 <= j < i - 1 implies #[trigger] rest[j] != "--config"@ by {
            assert(rest[j] == words[j + 1]);
        }
        lemma_config_word(rest, i - 1);
    }
}

/// A long line is cut behind its last comma that begins within the shown bytes.
pub proof fn a_line_is_cut_at_its_last_comma(line: Seq<char>, i: int)
    requires
        0 <= i <= line.len(),
    ensures
        0 <= last_comma(line, i) <= i,
        last_comma(line, i) > 0 ==> line[last_comma(line, i)] == ',' && offset(
            line,
            last_comma(line, i),
        ) <= SHOWN,
        forall|j: int|
            last_comma(line, i) < j < i && line[j] == ',' ==> #[trigger] offset(line, j) > SHOWN,
    decreases i,
{
    if i > 0 {
        a_line_is_cut_at_its_last_comma(line, i - 1);
    }
}

/// A path lies in the directory that it is written under.
pub proof fn a_path_lies_in_its_directory(base: Seq<char>, name: Seq<char>)
    requires
        !path::idle(text::pieces(base, '/').last()),
        !name.contains('/'),
        !path::idle(name),
        name != ".."@,
    ensures
        directory_of(base + seq!['/'] + name) == base,
{
    path::a_path_is_its_parent_and_name(base, name);
    if base.len() == 0 {
        text::lemma_pieces_end(base, '/');
    }
}

/// A repository on the forge is a flake under its own path.
pub proof fn a_repository_is_a_flake(repository: Seq<char>)
    ensures
        flake_text("https://github.com/"@ + repository) == "github:"@ + repository,
{
    let url = "https://github.com/"@ + repository;
    let n = "https://github.com/"@.len() as int;
    assert(url.take(n) =~= "https://github.com/"@);
    assert(url.skip(n) =~= repository);
}

}
