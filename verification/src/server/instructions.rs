//! The onboarding an operator is pointed at: nothing to accepted submissions. Two documents,
//! because one had to be true for every operator at once and so carried every branch inline. The
//! quickstart is the path a pool takes and stops there; the details page holds what the quickstart
//! leaves out, and is the only one that has to be complete.
//!
//! The analysis page is a third, and its audience is the other direction: a developer reading the
//! archive back rather than a pool sending to it.
//!
//! Values in each are filled rather than written down, so that every one they quote comes out of
//! the file that owns it.

use vstd::prelude::*;
use vstd::utf8;

use crate::bytes;
use crate::search;
use crate::server::applications::METADATA_LABEL;
use crate::server::developer::REALM;
use crate::server::http;
use crate::server::http::PLAIN;
use crate::server::instructions::deployment::{PublicUrl, Reached, Shadowed, OCTETS};
use crate::server::instructions::markup::Broken;
use crate::server::instructions::shipped::{ExecStartField, MetricsEndpoint, Repository};
use crate::text;
use crate::wire::attestation::{HEADER_POOL, HEADER_SIGNATURE, HEADER_VKEY};

pub mod deployment;
pub mod example;
pub mod markup;
pub mod shipped;

verus! {

/// Where the quickstart is served. The root, because it is the only thing a person rather than a
/// program comes here for.
pub const PATH: &'static str = "/";

/// Where the rest of it is served.
pub const DETAILS_PATH: &'static str = "/details";

/// Where the archive's own onboarding is served. A third document because its audience is not the
/// other two's: a pool operator sends telemetry, and this is for whoever reads it back.
pub const ANALYSIS_PATH: &'static str = "/analysis";

pub const ICON_PATH: &'static str = "/favicon.svg";

/// The path a client asks for on its own, whatever the page links. Served because a refusal log is
/// the record of why a pool's uploads are not landing, and an icon probe is not that.
pub const ICON_LEGACY_PATH: &'static str = "/favicon.ico";

pub const ICON_CONTENT_TYPE: &'static str = "image/svg+xml";

/// Where the downloadable files are served.
pub const FILES_PREFIX: &'static str = "/files/";

/// One file the pages link and the server answers for.
#[derive(Debug)]
pub struct File {
    pub name: String,
    pub bytes: Vec<u8>,
    pub content_type: &'static str,
}

/// What this module renders, held together so a caller cannot serve one and forget the others.
#[derive(Debug)]
pub struct Pages {
    pub quickstart: String,
    pub details: String,
    pub analysis: String,
    /// Everything served under `FILES_PREFIX`.
    pub files: Vec<File>,
}

/// One static build this deployment offers, read at startup by the caller: a path that cannot be
/// read is a deployment mistake, and finding it at boot beats finding it when an operator follows
/// the page.
#[derive(Debug)]
pub struct Binary {
    pub name: String,
    pub bytes: Vec<u8>,
}

/// Everything the pages are made of: their markup, with the placeholders a render fills, and the
/// shipped files whole.
#[derive(Debug)]
pub struct Assets {
    pub quickstart: String,
    pub details: String,
    pub analysis: String,
    /// Shared by all three, so the documents cannot drift apart visually.
    pub style: String,
    pub logo: String,
    /// What a working agent prints, as it was recorded.
    pub journal: String,
    /// The submission the page shows, as it prints it.
    pub envelope: String,
    /// Every reason a failed scrape can give.
    pub reasons: Vec<String>,
    pub client_version: String,
    pub repository: Repository,
    pub config_pipe: String,
    pub config_journald: String,
    pub config_minimal: String,
    pub config_example: String,
    pub unit: String,
    pub unit_journald: String,
    pub pipe_dropin: String,
    pub node_unit: String,
    pub analytics_sql: String,
    pub archive_sql: String,
}

/// Why the pages cannot be served.
#[derive(Debug)]
pub enum PagesError {
    Broken(Broken),
    Shadowed(Shadowed),
}

impl Assets {
    /// What the shipped files hold, in the order of their names.
    pub open spec fn contents(self) -> Seq<Seq<char>> {
        seq![
            self.config_pipe@,
            self.config_journald@,
            self.config_minimal@,
            self.config_example@,
            self.unit@,
            self.unit_journald@,
            self.pipe_dropin@,
            self.node_unit@,
            self.analytics_sql@,
            self.archive_sql@,
        ]
    }
}

/// The values every page is filled with, given its own path and contents.
pub open spec fn shared_values(
    style: Seq<char>,
    logo: Seq<char>,
    path: Seq<char>,
    contents: Seq<char>,
) -> Seq<(Seq<char>, Seq<char>)> {
    seq![
        ("ICON_PATH"@, ICON_PATH@),
        ("ICON_CONTENT_TYPE"@, ICON_CONTENT_TYPE@),
        ("style"@, text::trimmed_end(style)),
        ("logo"@, text::trimmed_end(logo)),
        ("nav"@, markup::nav_text(path)),
        ("toc"@, contents),
        ("sequence"@, markup::sequence_text(path)),
    ]
}

fn share(style: &str, logo: &str, path: &str, contents: String) -> (r: Vec<(&'static str, String)>)
    requires
        markup::is_page(path@),
    ensures
        markup::value_views(r@) == shared_values(style@, logo@, path@, contents@),
{
    let mut r: Vec<(&'static str, String)> = Vec::new();
    r.push(("ICON_PATH", String::from_str(ICON_PATH)));
    r.push(("ICON_CONTENT_TYPE", String::from_str(ICON_CONTENT_TYPE)));
    r.push(("style", search::trim_end(style)));
    r.push(("logo", search::trim_end(logo)));
    r.push(("nav", markup::nav(path)));
    r.push(("toc", contents));
    r.push(("sequence", markup::sequence(path)));
    assert(markup::value_views(r@) =~= shared_values(style@, logo@, path@, contents@));
    r
}

/// What the quickstart is filled with beside what every page is.
pub open spec fn quickstart_values(
    assets: Assets,
    reached: Reached,
    offered: Seq<http::Offered>,
    binary: Seq<char>,
    config: Seq<char>,
    key: Seq<char>,
) -> Seq<(Seq<char>, Seq<char>)> {
    let flake = shipped::flake_text(assets.repository.at());
    let (try_fetch, try_agent) = deployment::got(
        offered,
        reached.files,
        flake,
        deployment::BINARY_X86_64@,
        "metsuke"@,
    );
    seq![
        ("DETAILS_PATH"@, DETAILS_PATH@),
        ("FILES_PREFIX"@, FILES_PREFIX@),
        ("CLIENT_VERSION"@, assets.client_version@),
        ("files_url"@, markup::escaped(reached.files)),
        ("journal"@, markup::escaped(shipped::shown_journal(assets.journal@))),
        ("try_fetch"@, try_fetch),
        ("try_agent"@, try_agent),
        ("install"@, deployment::install_text(offered, reached.files, binary, flake)),
        ("config_path"@, markup::escaped(config)),
        ("key_path"@, markup::escaped(key)),
        ("config_dir"@, markup::escaped(shipped::directory_of(config))),
        ("flake"@, markup::escaped(flake)),
    ]
}

/// The quickstart, or what keeps it from being rendered.
pub open spec fn quickstart_text(
    assets: Assets,
    unit: Seq<char>,
    reached: Reached,
    offered: Seq<http::Offered>,
) -> Result<Seq<char>, Seq<char>> {
    match shipped::command_path(unit, ExecStartField::Binary) {
        Err(reason) => Err(reason),
        Ok(binary) => match markup::toc_text(assets.quickstart@) {
            Err(reason) => Err(reason),
            Ok(contents) => match shipped::command_path(unit, ExecStartField::Config) {
                Err(reason) => Err(reason),
                Ok(config) => match shipped::key_source(unit) {
                    Err(reason) => Err(reason),
                    Ok(key) => markup::filled(
                        assets.quickstart@,
                        shared_values(assets.style@, assets.logo@, PATH@, contents)
                            + quickstart_values(assets, reached, offered, binary, config, key),
                    ),
                },
            },
        },
    }
}

/// The four steps and nothing else. It links the files rather than printing them, so what it takes
/// is the unit whose paths it tells an operator to put things at, and the URL those links are
/// absolute against.
pub fn quickstart(assets: &Assets, unit: &str, public: &PublicUrl, offered: &[File]) -> (r: Result<
    String,
    Broken,
>)
    ensures
        match r {
            Ok(page) => quickstart_text(*assets, unit@, public@, http::offers(offered@)) == Ok::<
                Seq<char>,
                Seq<char>,
            >(page@),
            Err(error) => quickstart_text(*assets, unit@, public@, http::offers(offered@)) == Err::<
                Seq<char>,
                Seq<char>,
            >(error@),
        },
{
    let binary = match shipped::exec_start(unit, ExecStartField::Binary) {
        Ok(binary) => binary,
        Err(error) => {
            return Err(error);
        },
    };
    let contents = match markup::toc(assets.quickstart.as_str()) {
        Ok(contents) => contents,
        Err(error) => {
            return Err(error);
        },
    };
    let config = match shipped::exec_start(unit, ExecStartField::Config) {
        Ok(config) => config,
        Err(error) => {
            return Err(error);
        },
    };
    let key = match shipped::credential_source(unit) {
        Ok(key) => key,
        Err(error) => {
            return Err(error);
        },
    };
    let files = public.files_url();
    let flake = assets.repository.flake_ref();
    let (try_fetch, try_agent) = deployment::try_it(offered, files, flake.as_str());
    let mut values = share(assets.style.as_str(), assets.logo.as_str(), PATH, contents);
    let ghost shared = markup::value_views(values@);
    values.push(("DETAILS_PATH", String::from_str(DETAILS_PATH)));
    values.push(("FILES_PREFIX", String::from_str(FILES_PREFIX)));
    values.push(("CLIENT_VERSION", assets.client_version.clone()));
    values.push(("files_url", markup::escape(files)));
    values.push(
        ("journal", markup::escape(shipped::journal_shown(assets.journal.as_str()).as_str())),
    );
    values.push(("try_fetch", try_fetch));
    values.push(("try_agent", try_agent));
    values.push(
        ("install", deployment::install(offered, files, binary.as_str(), flake.as_str())),
    );
    values.push(("config_path", markup::escape(config.as_str())));
    values.push(("key_path", markup::escape(key.as_str())));
    values.push(
        ("config_dir", markup::escape(shipped::parent_of(config.as_str()).as_str())),
    );
    values.push(("flake", markup::escape(flake.as_str())));
    assert(markup::value_views(values@) =~= shared + quickstart_values(
        *assets,
        public@,
        http::offers(offered@),
        binary@,
        config@,
        key@,
    ));
    markup::fill(assets.quickstart.as_str(), values.as_slice())
}

/// What the details page is filled with beside what every page is.
pub open spec fn details_values(
    assets: Assets,
    reached: Reached,
    metrics: shipped::Endpoint,
    binary: Seq<char>,
    config: Seq<char>,
    key: Seq<char>,
) -> Seq<(Seq<char>, Seq<char>)> {
    seq![
        ("PATH"@, PATH@),
        ("ANALYSIS_PATH"@, ANALYSIS_PATH@),
        ("HEADER_VKEY"@, HEADER_VKEY@),
        ("HEADER_SIGNATURE"@, HEADER_SIGNATURE@),
        ("HEADER_POOL"@, HEADER_POOL@),
        ("METADATA_LABEL"@, text::decimal(METADATA_LABEL as int)),
        ("metadata"@, markup::escaped(shipped::metadata_text())),
        ("flake"@, markup::escaped(shipped::flake_text(assets.repository.at()))),
        ("DOCS_PREFIX"@, shipped::docs_text(assets.repository.at())),
        ("REPOSITORY"@, assets.repository.at()),
        ("envelope"@, markup::escaped(assets.envelope@)),
        ("reasons"@, shipped::reasons_text(text::views(assets.reasons@))),
        ("backend"@, markup::escaped(metrics.backend())),
        ("traces"@, markup::escaped(shipped::trace_text())),
        ("metrics_url"@, markup::escaped(metrics.url)),
        ("submit_url"@, markup::escaped(reached.submit)),
        ("FILES_PREFIX"@, FILES_PREFIX@),
        ("binary"@, markup::escaped(binary)),
        ("config_path"@, markup::escaped(config)),
        ("key_path"@, markup::escaped(key)),
    ]
}

/// The details page, or what keeps it from being rendered.
pub open spec fn details_text(assets: Assets, config_example: Seq<char>, reached: Reached) -> Result<
    Seq<char>,
    Seq<char>,
> {
    match MetricsEndpoint::named_in(config_example) {
        Err(reason) => Err(reason),
        Ok(metrics) => match markup::toc_text(assets.details@) {
            Err(reason) => Err(reason),
            Ok(contents) => match shipped::command_path(assets.unit@, ExecStartField::Binary) {
                Err(reason) => Err(reason),
                Ok(binary) => match shipped::command_path(assets.unit@, ExecStartField::Config) {
                    Err(reason) => Err(reason),
                    Ok(config) => match shipped::key_source(assets.unit@) {
                        Err(reason) => Err(reason),
                        Ok(key) => markup::filled(
                            assets.details@,
                            shared_values(assets.style@, assets.logo@, DETAILS_PATH@, contents)
                                + details_values(assets, reached, metrics, binary, config, key),
                        ),
                    },
                },
            },
        },
    }
}

/// Everything the quickstart leaves out. Takes the annotated example, which is the config the
/// metrics endpoint is read from.
pub fn details(assets: &Assets, config_example: &str, public: &PublicUrl) -> (r: Result<
    String,
    Broken,
>)
    ensures
        match r {
            Ok(page) => details_text(*assets, config_example@, public@) == Ok::<
                Seq<char>,
                Seq<char>,
            >(page@),
            Err(error) => details_text(*assets, config_example@, public@) == Err::<
                Seq<char>,
                Seq<char>,
            >(error@),
        },
{
    let metrics = match MetricsEndpoint::from_config(config_example) {
        Ok(metrics) => metrics,
        Err(error) => {
            return Err(error);
        },
    };
    let contents = match markup::toc(assets.details.as_str()) {
        Ok(contents) => contents,
        Err(error) => {
            return Err(error);
        },
    };
    let binary = match shipped::exec_start(assets.unit.as_str(), ExecStartField::Binary) {
        Ok(binary) => binary,
        Err(error) => {
            return Err(error);
        },
    };
    let config = match shipped::exec_start(assets.unit.as_str(), ExecStartField::Config) {
        Ok(config) => config,
        Err(error) => {
            return Err(error);
        },
    };
    let key = match shipped::credential_source(assets.unit.as_str()) {
        Ok(key) => key,
        Err(error) => {
            return Err(error);
        },
    };
    let flake = assets.repository.flake_ref();
    let mut values = share(assets.style.as_str(), assets.logo.as_str(), DETAILS_PATH, contents);
    let ghost shared = markup::value_views(values@);
    values.push(("PATH", String::from_str(PATH)));
    values.push(("ANALYSIS_PATH", String::from_str(ANALYSIS_PATH)));
    values.push(("HEADER_VKEY", String::from_str(HEADER_VKEY)));
    values.push(("HEADER_SIGNATURE", String::from_str(HEADER_SIGNATURE)));
    values.push(("HEADER_POOL", String::from_str(HEADER_POOL)));
    values.push(("METADATA_LABEL", text::decimal_of(METADATA_LABEL as u128)));
    values.push(("metadata", markup::escape(shipped::metadata_json().as_str())));
    values.push(("flake", markup::escape(flake.as_str())));
    values.push(("DOCS_PREFIX", assets.repository.docs_prefix()));
    values.push(("REPOSITORY", String::from_str(assets.repository.url())));
    values.push(("envelope", markup::escape(assets.envelope.as_str())));
    values.push(("reasons", shipped::failure_reasons(assets.reasons.as_slice())));
    values.push(("backend", markup::escape(metrics.backend_config().as_str())));
    values.push(("traces", markup::escape(shipped::trace_config().as_str())));
    values.push(("metrics_url", markup::escape(metrics.url())));
    values.push(("submit_url", markup::escape(public.submit_url())));
    values.push(("FILES_PREFIX", String::from_str(FILES_PREFIX)));
    values.push(("binary", markup::escape(binary.as_str())));
    values.push(("config_path", markup::escape(config.as_str())));
    values.push(("key_path", markup::escape(key.as_str())));
    assert(markup::value_views(values@) =~= shared + details_values(
        *assets,
        public@,
        metrics@,
        binary@,
        config@,
        key@,
    ));
    markup::fill(assets.details.as_str(), values.as_slice())
}

/// What the analysis page is filled with beside what every page is.
pub open spec fn analysis_values(
    assets: Assets,
    reached: Reached,
    offered: Seq<http::Offered>,
) -> Seq<(Seq<char>, Seq<char>)> {
    let flake = shipped::flake_text(assets.repository.at());
    let (fetch_install, fetch) = deployment::got(
        offered,
        reached.files,
        flake,
        deployment::FETCH_BINARY_X86_64@,
        "metsuke-fetch"@,
    );
    seq![
        ("PATH"@, PATH@),
        ("DETAILS_PATH"@, DETAILS_PATH@),
        ("FILES_PREFIX"@, FILES_PREFIX@),
        ("DOCS_PREFIX"@, shipped::docs_text(assets.repository.at())),
        ("REPOSITORY"@, assets.repository.at()),
        ("flake"@, markup::escaped(flake)),
        ("files_url"@, markup::escaped(reached.files)),
        ("fetch_install"@, fetch_install),
        ("fetch"@, markup::escaped(fetch)),
        ("server_url"@, markup::escaped(reached.url)),
        ("REALM"@, REALM@),
    ]
}

/// The analysis page, or what keeps it from being rendered.
pub open spec fn analysis_text(assets: Assets, reached: Reached, offered: Seq<http::Offered>) -> Result<
    Seq<char>,
    Seq<char>,
> {
    match markup::toc_text(assets.analysis@) {
        Err(reason) => Err(reason),
        Ok(contents) => markup::filled(
            assets.analysis@,
            shared_values(assets.style@, assets.logo@, ANALYSIS_PATH@, contents) + analysis_values(
                assets,
                reached,
                offered,
            ),
        ),
    }
}

/// The archive's own onboarding, for whoever reads the telemetry back rather than sends it.
pub fn analysis(assets: &Assets, public: &PublicUrl, offered: &[File]) -> (r: Result<
    String,
    Broken,
>)
    ensures
        match r {
            Ok(page) => analysis_text(*assets, public@, http::offers(offered@)) == Ok::<
                Seq<char>,
                Seq<char>,
            >(page@),
            Err(error) => analysis_text(*assets, public@, http::offers(offered@)) == Err::<
                Seq<char>,
                Seq<char>,
            >(error@),
        },
{
    let contents = match markup::toc(assets.analysis.as_str()) {
        Ok(contents) => contents,
        Err(error) => {
            return Err(error);
        },
    };
    let files = public.files_url();
    let flake = assets.repository.flake_ref();
    let (fetch_install, fetch) = deployment::fetch_it(offered, files, flake.as_str());
    let mut values = share(assets.style.as_str(), assets.logo.as_str(), ANALYSIS_PATH, contents);
    let ghost shared = markup::value_views(values@);
    values.push(("PATH", String::from_str(PATH)));
    values.push(("DETAILS_PATH", String::from_str(DETAILS_PATH)));
    values.push(("FILES_PREFIX", String::from_str(FILES_PREFIX)));
    values.push(("DOCS_PREFIX", assets.repository.docs_prefix()));
    values.push(("REPOSITORY", String::from_str(assets.repository.url())));
    values.push(("flake", markup::escape(flake.as_str())));
    values.push(("files_url", markup::escape(files)));
    values.push(("fetch_install", fetch_install));
    values.push(("fetch", markup::escape(fetch.as_str())));
    values.push(("server_url", markup::escape(public.url())));
    values.push(("REALM", String::from_str(REALM)));
    assert(markup::value_views(values@) =~= shared + analysis_values(
        *assets,
        public@,
        http::offers(offered@),
    ));
    markup::fill(assets.analysis.as_str(), values.as_slice())
}

/// What a shipped file is served as: a config is pointed at this deployment, and any file's
/// references to the siblings it serves become links to them. Nothing else moves.
pub open spec fn served_text(name: Seq<char>, contents: Seq<char>, reached: Reached) -> Result<
    Seq<char>,
    Seq<char>,
> {
    let pointed = if text::ends(name, ".toml"@) {
        deployment::pointed_text(contents, reached.submit)
    } else {
        Ok(contents)
    };
    match pointed {
        Err(reason) => Err(reason),
        Ok(shown) => Ok(deployment::linked(shown, reached.files, deployment::file_names())),
    }
}

fn serve_text(name: &'static str, contents: &str, public: &PublicUrl) -> (r: Result<File, Broken>)
    ensures
        match r {
            Ok(file) => deployment::offer(file) == (http::Offered {
                name: name@,
                bytes: utf8::encode_utf8(served_text(name@, contents@, public@)->Ok_0),
                content_type: PLAIN@,
            }) && served_text(name@, contents@, public@) is Ok,
            Err(error) => served_text(name@, contents@, public@) == Err::<Seq<char>, Seq<char>>(
                error@,
            ),
        },
{
    let shown = if text::ends_with(name, ".toml") {
        match deployment::pointed_at(contents, public.submit_url()) {
            Ok(pointed) => pointed,
            Err(error) => {
                return Err(error);
            },
        }
    } else {
        String::from_str(contents)
    };
    let served = deployment::siblings_linked(shown.as_str(), public.files_url());
    Ok(
        File {
            name: String::from_str(name),
            bytes: bytes::copied(served.as_str().as_bytes()),
            content_type: PLAIN,
        },
    )
}

/// The shipped files as they are served, or the first that is not.
pub open spec fn shipped_files(
    names: Seq<Seq<char>>,
    contents: Seq<Seq<char>>,
    reached: Reached,
) -> Result<Seq<http::Offered>, Seq<char>>
    decreases names.len(),
{
    if names.len() == 0 || contents.len() == 0 {
        Ok(seq![])
    } else {
        match shipped_files(names.drop_last(), contents.drop_last(), reached) {
            Err(reason) => Err(reason),
            Ok(before) => match served_text(names.last(), contents.last(), reached) {
                Err(reason) => Err(reason),
                Ok(served) => Ok(
                    before.push(
                        http::Offered {
                            name: names.last(),
                            bytes: utf8::encode_utf8(served),
                            content_type: PLAIN@,
                        },
                    ),
                ),
            },
        }
    }
}

proof fn lemma_fault_stays(
    names: Seq<Seq<char>>,
    contents: Seq<Seq<char>>,
    reached: Reached,
    i: int,
)
    requires
        0 <= i <= names.len(),
        names.len() == contents.len(),
        shipped_files(names.take(i), contents.take(i), reached) is Err,
    ensures
        shipped_files(names, contents, reached) == shipped_files(
            names.take(i),
            contents.take(i),
            reached,
        ),
    decreases names.len() - i,
{
    if i < names.len() {
        assert(names.take(i + 1).drop_last() =~= names.take(i));
        assert(contents.take(i + 1).drop_last() =~= contents.take(i));
        lemma_fault_stays(names, contents, reached, i + 1);
    } else {
        assert(names.take(i) =~= names);
        assert(contents.take(i) =~= contents);
    }
}

fn serve_shipped(assets: &Assets, public: &PublicUrl) -> (r: Result<Vec<File>, Broken>)
    ensures
        match r {
            Ok(files) => shipped_files(deployment::file_names(), assets.contents(), public@)
                == Ok::<Seq<http::Offered>, Seq<char>>(http::offers(files@)),
            Err(error) => shipped_files(deployment::file_names(), assets.contents(), public@)
                == Err::<Seq<http::Offered>, Seq<char>>(error@),
        },
{
    let names = deployment::files_offered();
    let mut contents: Vec<&str> = Vec::new();
    contents.push(assets.config_pipe.as_str());
    contents.push(assets.config_journald.as_str());
    contents.push(assets.config_minimal.as_str());
    contents.push(assets.config_example.as_str());
    contents.push(assets.unit.as_str());
    contents.push(assets.unit_journald.as_str());
    contents.push(assets.pipe_dropin.as_str());
    contents.push(assets.node_unit.as_str());
    contents.push(assets.analytics_sql.as_str());
    contents.push(assets.archive_sql.as_str());
    let ghost all_names = deployment::file_names();
    let ghost all_contents = assets.contents();
    assert(contents@.map_values(|held: &str| held@) =~= all_contents);
    let mut files: Vec<File> = Vec::new();
    assert(http::offers(files@) =~= seq![]);
    for i in 0..names.len()
        invariant
            names@.len() == 10,
            contents@.len() == 10,
            all_names == deployment::file_names(),
            all_contents == assets.contents(),
            names@.map_values(|name: &'static str| name@) == all_names,
            contents@.map_values(|held: &str| held@) == all_contents,
            shipped_files(all_names.take(i as int), all_contents.take(i as int), public@) == Ok::<
                Seq<http::Offered>,
                Seq<char>,
            >(http::offers(files@)),
    {
        let ghost before = files@;
        proof {
            assert(names@.map_values(|name: &'static str| name@)[i as int] == names@[i as int]@);
            assert(contents@.map_values(|held: &str| held@)[i as int] == contents@[i as int]@);
            assert(all_names.take(i + 1).drop_last() =~= all_names.take(i as int));
            assert(all_contents.take(i + 1).drop_last() =~= all_contents.take(i as int));
            assert(all_names.take(i + 1).last() == names@[i as int]@);
            assert(all_contents.take(i + 1).last() == contents@[i as int]@);
        }
        match serve_text(names[i], contents[i], public) {
            Ok(file) => {
                files.push(file);
                assert(http::offers(files@) =~= http::offers(before).push(
                    deployment::offer(file),
                ));
            },
            Err(error) => {
                proof {
                    lemma_fault_stays(all_names, all_contents, public@, i + 1);
                }
                return Err(error);
            },
        }
    }
    assert(all_names.take(10) =~= all_names);
    assert(all_contents.take(10) =~= all_contents);
    Ok(files)
}

/// What builds are served as.
pub open spec fn builds_of(binaries: Seq<Binary>) -> Seq<http::Offered> {
    binaries.map_values(
        |binary: Binary|
            http::Offered {
                name: binary.name@,
                bytes: binary.bytes@,
                content_type: OCTETS@,
            },
    )
}

/// Everything that would be served: the shipped files, the builds, and a checksum for each build.
/// The checksums are derived from the builds rather than from the bytes that made them, so one
/// cannot name a build this deployment does not serve.
pub open spec fn all_files(files: Seq<http::Offered>, builds: Seq<http::Offered>) -> Seq<
    http::Offered,
> {
    files + builds + builds.map_values(|build: http::Offered| deployment::checksum_of(build))
}

fn gather(files: Vec<File>, binaries: Vec<Binary>) -> (r: Vec<File>)
    ensures
        http::offers(r@) == all_files(http::offers(files@), builds_of(binaries@)),
{
    let ghost builds = builds_of(binaries@);
    let ghost checksum = |build: http::Offered| deployment::checksum_of(build);
    let ghost shipped = http::offers(files@);
    let mut r = files;
    let mut checksums: Vec<File> = Vec::new();
    assert(http::offers(r@) =~= shipped + builds.take(0));
    assert(http::offers(checksums@) =~= builds.take(0).map_values(checksum));
    for i in 0..binaries.len()
        invariant
            builds == builds_of(binaries@),
            checksum == (|build: http::Offered| deployment::checksum_of(build)),
            http::offers(r@) == shipped + builds.take(i as int),
            http::offers(checksums@) == builds.take(i as int).map_values(checksum),
    {
        let ghost before = r@;
        let ghost before_sums = checksums@;
        let build = File {
            name: binaries[i].name.clone(),
            bytes: bytes::copied(binaries[i].bytes.as_slice()),
            content_type: OCTETS,
        };
        let sum = deployment::checksum_for(&build);
        assert(deployment::offer(build) == builds[i as int]);
        checksums.push(sum);
        r.push(build);
        proof {
            assert(http::offers(r@) =~= http::offers(before).push(builds[i as int]));
            assert(http::offers(r@) =~= shipped + builds.take(i + 1));
            assert(http::offers(checksums@) =~= http::offers(before_sums).push(
                deployment::checksum_of(builds[i as int]),
            ));
            assert(http::offers(checksums@) =~= builds.take(i + 1).map_values(checksum));
        }
    }
    assert(builds.take(builds.len() as int) =~= builds);
    let ghost built = http::offers(r@);
    let ghost sums = http::offers(checksums@);
    for i in 0..checksums.len()
        invariant
            sums == http::offers(checksums@),
            http::offers(r@) == built + sums.take(i as int),
    {
        let ghost before = r@;
        let one = File {
            name: checksums[i].name.clone(),
            bytes: bytes::copied(checksums[i].bytes.as_slice()),
            content_type: checksums[i].content_type,
        };
        assert(deployment::offer(one) == sums[i as int]);
        r.push(one);
        assert(http::offers(r@) =~= http::offers(before).push(sums[i as int]));
        assert(http::offers(r@) =~= built + sums.take(i + 1));
    }
    assert(sums.take(sums.len() as int) =~= sums);
    r
}

/// What the pages and their files are, over plain values.
pub struct Rendered {
    pub quickstart: Seq<char>,
    pub details: Seq<char>,
    pub analysis: Seq<char>,
    pub files: Seq<http::Offered>,
}

impl View for Pages {
    type V = Rendered;

    open spec fn view(&self) -> Rendered {
        Rendered {
            quickstart: self.quickstart@,
            details: self.details@,
            analysis: self.analysis@,
            files: http::offers(self.files@),
        }
    }
}

/// What a `PagesError` is, over plain values.
pub enum PagesFault {
    Broken(Seq<char>),
    Shadowed(Seq<char>),
}

impl View for PagesError {
    type V = PagesFault;

    open spec fn view(&self) -> PagesFault {
        match *self {
            PagesError::Broken(error) => PagesFault::Broken(error@),
            PagesError::Shadowed(error) => PagesFault::Shadowed(error.name@),
        }
    }
}

/// All three pages and every file they link, or what keeps them from being served. The quickstart
/// installs the unit that reads the journal.
pub open spec fn rendered(assets: Assets, reached: Reached, builds: Seq<http::Offered>) -> Result<
    Rendered,
    PagesFault,
> {
    match shipped_files(deployment::file_names(), assets.contents(), reached) {
        Err(reason) => Err(PagesFault::Broken(reason)),
        Ok(shipped) => {
            let files = all_files(shipped, builds);
            match deployment::shadowed(files, 0) {
                Some(name) => Err(PagesFault::Shadowed(name)),
                None => match quickstart_text(assets, assets.unit_journald@, reached, files) {
                    Err(reason) => Err(PagesFault::Broken(reason)),
                    Ok(quickstart) => match deployment::pointed_text(
                        assets.config_example@,
                        reached.submit,
                    ) {
                        Err(reason) => Err(PagesFault::Broken(reason)),
                        Ok(example) => match details_text(assets, example, reached) {
                            Err(reason) => Err(PagesFault::Broken(reason)),
                            Ok(details) => match analysis_text(assets, reached, files) {
                                Err(reason) => Err(PagesFault::Broken(reason)),
                                Ok(analysis) => Ok(
                                    Rendered { quickstart, details, analysis, files },
                                ),
                            },
                        },
                    },
                },
            }
        },
    }
}

/// All three pages and every file they link, ready to serve. `binaries` is empty where the
/// deployment ships none, and the install step then says to build one instead of offering it.
pub fn pages(assets: &Assets, public: &PublicUrl, binaries: Vec<Binary>) -> (r: Result<
    Pages,
    PagesError,
>)
    ensures
        match r {
            Ok(pages) => rendered(*assets, public@, builds_of(binaries@)) == Ok::<
                Rendered,
                PagesFault,
            >(pages@),
            Err(error) => rendered(*assets, public@, builds_of(binaries@)) == Err::<
                Rendered,
                PagesFault,
            >(error@),
        },
{
    let shipped = match serve_shipped(assets, public) {
        Ok(shipped) => shipped,
        Err(error) => {
            return Err(PagesError::Broken(error));
        },
    };
    let files = gather(shipped, binaries);
    if let Err(error) = deployment::one_per_name(files.as_slice()) {
        return Err(PagesError::Shadowed(error));
    }
    let first = match quickstart(
        assets,
        assets.unit_journald.as_str(),
        public,
        files.as_slice(),
    ) {
        Ok(first) => first,
        Err(error) => {
            return Err(PagesError::Broken(error));
        },
    };
    let example = match deployment::pointed_at(assets.config_example.as_str(), public.submit_url()) {
        Ok(example) => example,
        Err(error) => {
            return Err(PagesError::Broken(error));
        },
    };
    let second = match details(assets, example.as_str(), public) {
        Ok(second) => second,
        Err(error) => {
            return Err(PagesError::Broken(error));
        },
    };
    match analysis(assets, public, files.as_slice()) {
        Ok(third) => Ok(Pages { quickstart: first, details: second, analysis: third, files }),
        Err(error) => Err(PagesError::Broken(error)),
    }
}

/// Every build that is served has its checksum served beside it, and that checksum is of the bytes
/// the build's own name answers with.
pub proof fn a_checksum_is_of_what_is_served(
    assets: Assets,
    reached: Reached,
    builds: Seq<http::Offered>,
    i: int,
)
    requires
        rendered(assets, reached, builds) is Ok,
        0 <= i < builds.len(),
    ensures
        http::file_named(rendered(assets, reached, builds)->Ok_0.files, builds[i].name) == Some(
            builds[i],
        ),
        http::file_named(
            rendered(assets, reached, builds)->Ok_0.files,
            builds[i].name + deployment::CHECKSUM_SUFFIX@,
        ) == Some(deployment::checksum_of(builds[i])),
{
    let shipped = shipped_files(
        deployment::file_names(),
        assets.contents(),
        reached,
    )->Ok_0;
    let files = all_files(shipped, builds);
    let n = shipped.len() as int;
    assert(files[n + i] == builds[i]);
    assert(files[n + builds.len() + i] == deployment::checksum_of(builds[i]));
    deployment::a_name_answers_with_its_file(files, n + i);
    deployment::a_name_answers_with_its_file(files, n + builds.len() + i);
}

/// Every file is served under its own name and holds its own text: none is left out, none is served
/// for another, and one that cannot be served stops them all.
pub proof fn every_file_is_served(
    names: Seq<Seq<char>>,
    contents: Seq<Seq<char>>,
    reached: Reached,
)
    requires
        names.len() == contents.len(),
    ensures
        shipped_files(names, contents, reached) matches Ok(files) ==> files.len() == names.len()
            && forall|i: int|
            0 <= i < names.len() ==> (#[trigger] files[i]).name == names[i] && served_text(
                names[i],
                contents[i],
                reached,
            ) is Ok && files[i].bytes == utf8::encode_utf8(
                served_text(names[i], contents[i], reached)->Ok_0,
            ),
        shipped_files(names, contents, reached) is Ok <==> forall|i: int|
            0 <= i < names.len() ==> served_text(#[trigger] names[i], contents[i], reached) is Ok,
    decreases names.len(),
{
    if names.len() > 0 {
        let n = names.len() - 1;
        every_file_is_served(names.drop_last(), contents.drop_last(), reached);
        assert(names[n] == names.last() && contents[n] == contents.last());
        assert(forall|i: int| 0 <= i < n ==> names.drop_last()[i] == #[trigger] names[i]);
        assert(forall|i: int| 0 <= i < n ==> contents.drop_last()[i] == #[trigger] contents[i]);
        if forall|i: int|
            0 <= i < names.len() ==> served_text(#[trigger] names[i], contents[i], reached) is Ok {
            assert forall|i: int| 0 <= i < n implies served_text(
                #[trigger] names.drop_last()[i],
                contents.drop_last()[i],
                reached,
            ) is Ok by {
                assert(served_text(names[i], contents[i], reached) is Ok);
            }
        }
        if shipped_files(names, contents, reached) is Ok {
            assert forall|i: int| 0 <= i < names.len() implies served_text(
                #[trigger] names[i],
                contents[i],
                reached,
            ) is Ok by {
                if i < n {
                    assert(served_text(names.drop_last()[i], contents.drop_last()[i], reached)
                        is Ok);
                }
            }
        }
    }
}

}
