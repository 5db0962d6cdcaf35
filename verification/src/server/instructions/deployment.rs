//! What the pages say of one deployment: its URLs, the files and builds it offers, and how a reader
//! gets them.

use vstd::prelude::*;
use vstd::utf8;

use crate::bytes;
use crate::hex;
use crate::outside;
use crate::search;
use crate::server::http;
use crate::server::http::{PLAIN, SUBMIT_PATH};
use crate::server::instructions::markup;
use crate::server::instructions::markup::Broken;
use crate::server::instructions::shipped;
use crate::server::instructions::{File, FILES_PREFIX};
use crate::text;

verus! {

/// The names the static agent builds are served and linked under, first the one the pages show.
pub const BINARY_X86_64: &'static str = "metsuke-static-x86_64-linux";

pub const BINARY_AARCH64: &'static str = "metsuke-static-aarch64-linux";

/// The same for the fetch tool, which the analysis page offers and neither other page mentions.
/// Apart, because a deployment serving only the fetch builds still has no agent to hand a pool.
pub const FETCH_BINARY_X86_64: &'static str = "metsuke-fetch-static-x86_64-linux";

pub const FETCH_BINARY_AARCH64: &'static str = "metsuke-fetch-static-aarch64-linux";

/// What a build's checksum file is named, beside the build itself.
pub const CHECKSUM_SUFFIX: &'static str = ".sha256";

pub const OCTETS: &'static str = "application/octet-stream";

/// Where this deployment is reached, and where it serves its files and takes submissions.
#[derive(Debug)]
pub struct PublicUrl {
    url: String,
    files: String,
    submit: String,
}

/// What a `PublicUrl` is, over plain values.
pub struct Reached {
    pub url: Seq<char>,
    pub files: Seq<char>,
    pub submit: Seq<char>,
}

impl View for PublicUrl {
    type V = Reached;

    closed spec fn view(&self) -> Reached {
        Reached { url: self.url@, files: self.files@, submit: self.submit@ }
    }
}

/// Where a URL is reached once it was parsed and the two paths were joined onto it, or why nowhere.
pub open spec fn reached_at(
    url: Result<Seq<char>, Seq<char>>,
    files: Option<Seq<char>>,
    submit: Option<Seq<char>>,
) -> Result<Reached, Seq<char>> {
    match url {
        Err(reason) => Err("the public URL does not parse: "@ + reason),
        Ok(url) => match (files, submit) {
            (Some(files), Some(submit)) => Ok(Reached { url, files, submit }),
            _ => Err("the public URL takes no path"@),
        },
    }
}

/// Where the deployment at a URL is reached.
pub open spec fn public_at(s: Seq<char>) -> Result<Reached, Seq<char>> {
    reached_at(
        outside::url_text_of(s),
        outside::url_joined_of(s, FILES_PREFIX@),
        outside::url_joined_of(s, SUBMIT_PATH@),
    )
}

/// What a URL parser made of a text, over plain values.
pub open spec fn parsed_view(url: Result<String, String>) -> Result<Seq<char>, Seq<char>> {
    match url {
        Ok(url) => Ok(url@),
        Err(reason) => Err(reason@),
    }
}

impl PublicUrl {
    /// Where a URL is reached, once it was parsed and joined onto: see `reached_at`.
    pub fn of(
        url: Result<String, String>,
        files: Option<String>,
        submit: Option<String>,
    ) -> (r: Result<PublicUrl, Broken>)
        ensures
            match r {
                Ok(public) => reached_at(
                    parsed_view(url),
                    text::view_of(files),
                    text::view_of(submit),
                ) == Ok::<Reached, Seq<char>>(public@),
                Err(error) => reached_at(
                    parsed_view(url),
                    text::view_of(files),
                    text::view_of(submit),
                ) == Err::<Reached, Seq<char>>(error@),
            },
    {
        match url {
            Err(error) => {
                let mut reason = String::from_str("the public URL does not parse: ");
                reason.append(error.as_str());
                Err(Broken { reason })
            },
            Ok(url) => match (files, submit) {
                (Some(files), Some(submit)) => Ok(PublicUrl { url, files, submit }),
                _ => Err(markup::broken("the public URL takes no path")),
            },
        }
    }

    /// Where the deployment at a URL is reached.
    pub fn parse(s: &str) -> (r: Result<PublicUrl, Broken>)
        ensures
            match r {
                Ok(public) => public_at(s@) == Ok::<Reached, Seq<char>>(public@),
                Err(error) => public_at(s@) == Err::<Reached, Seq<char>>(error@),
            },
    {
        let url = outside::url_text(s);
        let files = outside::url_join(s, FILES_PREFIX);
        let submit = outside::url_join(s, SUBMIT_PATH);
        PublicUrl::of(url, files, submit)
    }

    /// The URL itself.
    pub fn url(&self) -> (r: &str)
        ensures
            r@ == self@.url,
    {
        self.url.as_str()
    }

    /// Where the files are served.
    pub fn files_url(&self) -> (r: &str)
        ensures
            r@ == self@.files,
    {
        self.files.as_str()
    }

    /// Where this deployment takes submissions. The one value a shipped file cannot carry.
    pub fn submit_url(&self) -> (r: &str)
        ensures
            r@ == self@.submit,
    {
        self.submit.as_str()
    }
}

/// What a reader checks a download against, in hexadecimal. SHA-256, because `sha256sum` is what an
/// operator already has: a check that makes them look up a tool is a check they skip. It says
/// nothing against a server that is itself lying; it catches a truncated download, an object
/// half-staged, and an error body left where the build was meant to be.
pub open spec fn digest_text(held: Seq<u8>) -> Seq<char> {
    hex::encoded(outside::sha256_of(held))
}

fn digest(held: &[u8]) -> (r: String)
    ensures
        r@ == digest_text(held@),
{
    hex::encode(outside::sha256(held).as_slice())
}

/// The digest of the build served under a name, where one is served.
pub open spec fn offered_digest(offered: Seq<http::Offered>, name: Seq<char>) -> Option<Seq<char>> {
    match http::file_named(offered, name) {
        Some(file) => Some(digest_text(file.bytes)),
        None => None,
    }
}

/// The digest of the build served under `name`, where this deployment serves one.
pub fn digest_of(offered: &[File], name: &str) -> (r: Option<String>)
    ensures
        text::view_of(r) == offered_digest(http::offers(offered@), name@),
{
    let ghost all = http::offers(offered@);
    assert(all.skip(0) =~= all);
    for i in 0..offered.len()
        invariant
            all == http::offers(offered@),
            http::file_named(all, name@) == http::file_named(all.skip(i as int), name@),
    {
        let ghost rest = all.skip(i as int);
        assert(rest[0] == all[i as int]);
        assert(rest.skip(1) =~= all.skip(i + 1));
        if text::same(offered[i].name.as_str(), name) {
            return Some(digest(offered[i].bytes.as_slice()));
        }
    }
    None
}

/// The checksum file of a build: the digest and the build's own name, in the format `sha256sum -c`
/// reads.
pub open spec fn checksum_of(build: http::Offered) -> http::Offered {
    http::Offered {
        name: build.name + CHECKSUM_SUFFIX@,
        bytes: utf8::encode_utf8(digest_text(build.bytes) + "  "@ + build.name + "\n"@),
        content_type: PLAIN@,
    }
}

/// What a file is, over plain values.
pub open spec fn offer(file: File) -> http::Offered {
    http::Offered { name: file.name@, bytes: file.bytes@, content_type: file.content_type@ }
}

/// The checksum file for one build. Only the builds have one: every other file is text an operator
/// reads, and a truncated one of those fails to parse in front of them.
pub fn checksum_for(build: &File) -> (r: File)
    ensures
        offer(r) == checksum_of(offer(*build)),
{
    let mut name = build.name.clone();
    name.append(CHECKSUM_SUFFIX);
    let mut line = digest(build.bytes.as_slice());
    line.append("  ");
    line.append(build.name.as_str());
    line.append("\n");
    File { name, bytes: bytes::copied(line.as_str().as_bytes()), content_type: PLAIN }
}

/// Whether a build is served under a name.
pub open spec fn is_offered(offered: Seq<http::Offered>, name: Seq<char>) -> bool {
    http::file_named(offered, name) is Some
}

/// Whether this deployment hands out an agent, which decides how both the try-it and the install
/// step tell an operator to get one.
pub fn offers_a_build(offered: &[File]) -> (r: bool)
    ensures
        r == is_offered(http::offers(offered@), BINARY_X86_64@),
{
    digest_of(offered, BINARY_X86_64).is_some()
}

/// The commands that download a build, check it and install it. `-f`, so that an error body is not
/// installed as the build; `-O`, so that it keeps the name the checksum file has inside.
pub open spec fn install_download(files_url: Seq<char>, binary: Seq<char>) -> Seq<Seq<char>> {
    seq![
        "# Download the build for your architecture, and its checksum"@,
        "curl -fO "@ + files_url + BINARY_X86_64@,
        "curl -fO "@ + files_url + BINARY_X86_64@ + CHECKSUM_SUFFIX@,
        ""@,
        "# Check it is the build this page describes"@,
        "sha256sum -c "@ + BINARY_X86_64@ + CHECKSUM_SUFFIX@,
        ""@,
        "# Install it where the unit will look for it"@,
        "sudo install -D -m 0755 "@ + BINARY_X86_64@ + " "@ + binary,
    ]
}

/// The commands that build an agent and install it.
pub open spec fn install_build(flake: Seq<char>, binary: Seq<char>) -> Seq<Seq<char>> {
    seq![
        "# Build the static agent"@,
        "nix build "@ + flake + "#"@ + BINARY_X86_64@,
        ""@,
        "# Install it where the unit will look for it"@,
        "sudo install -D -m 0755 result/bin/metsuke "@ + binary,
    ]
}

/// The install step's commands: downloading the build this deployment offers where it offers one,
/// and building it otherwise.
pub open spec fn install_text(
    offered: Seq<http::Offered>,
    files_url: Seq<char>,
    binary: Seq<char>,
    flake: Seq<char>,
) -> Seq<char> {
    markup::escaped(
        text::joined(
            if is_offered(offered, BINARY_X86_64@) {
                install_download(files_url, binary)
            } else {
                install_build(flake, binary)
            },
            "\n"@,
        ),
    )
}

/// The install step's commands: see `install_text`.
pub fn install(offered: &[File], files_url: &str, binary: &str, flake: &str) -> (r: String)
    ensures
        r@ == install_text(http::offers(offered@), files_url@, binary@, flake@),
{
    let mut lines: Vec<String> = Vec::new();
    if offers_a_build(offered) {
        lines.push(
            String::from_str("# Download the build for your architecture, and its checksum"),
        );
        let mut build = String::from_str("curl -fO ");
        build.append(files_url);
        build.append(BINARY_X86_64);
        lines.push(build);
        let mut checksum = String::from_str("curl -fO ");
        checksum.append(files_url);
        checksum.append(BINARY_X86_64);
        checksum.append(CHECKSUM_SUFFIX);
        lines.push(checksum);
        lines.push(String::from_str(""));
        lines.push(String::from_str("# Check it is the build this page describes"));
        let mut check = String::from_str("sha256sum -c ");
        check.append(BINARY_X86_64);
        check.append(CHECKSUM_SUFFIX);
        lines.push(check);
        lines.push(String::from_str(""));
        lines.push(String::from_str("# Install it where the unit will look for it"));
        let mut put = String::from_str("sudo install -D -m 0755 ");
        put.append(BINARY_X86_64);
        put.append(" ");
        put.append(binary);
        lines.push(put);
        assert(text::views(lines@) =~= install_download(files_url@, binary@));
    } else {
        lines.push(String::from_str("# Build the static agent"));
        let mut build = String::from_str("nix build ");
        build.append(flake);
        build.append("#");
        build.append(BINARY_X86_64);
        lines.push(build);
        lines.push(String::from_str(""));
        lines.push(String::from_str("# Install it where the unit will look for it"));
        let mut put = String::from_str("sudo install -D -m 0755 result/bin/metsuke ");
        put.append(binary);
        lines.push(put);
        assert(text::views(lines@) =~= install_build(flake@, binary@));
    }
    markup::escape(text::join(lines.as_slice(), "\n").as_str())
}

/// How a tool is got, and what is then run: downloaded under the name it will be run as, checked
/// against the digest this page carries and made executable, where its build is offered; built
/// otherwise.
pub open spec fn got(
    offered: Seq<http::Offered>,
    files_url: Seq<char>,
    flake: Seq<char>,
    build: Seq<char>,
    tool: Seq<char>,
) -> (Seq<char>, Seq<char>) {
    match offered_digest(offered, build) {
        Some(digest) => (
            markup::escaped(
                "curl -fo "@ + tool + " "@ + files_url + build + "\necho '"@ + digest + "  "@
                    + tool + "' | sha256sum -c\nchmod +x "@ + tool,
            ),
            "./"@ + tool,
        ),
        None => (
            markup::escaped("nix build "@ + flake + "#"@ + build),
            "./result/bin/"@ + tool,
        ),
    }
}

fn get_it(offered: &[File], files_url: &str, flake: &str, build: &str, tool: &str) -> (r: (
    String,
    String,
))
    ensures
        (r.0@, r.1@) == got(http::offers(offered@), files_url@, flake@, build@, tool@),
{
    match digest_of(offered, build) {
        Some(digest) => {
            let mut commands = String::from_str("curl -fo ");
            commands.append(tool);
            commands.append(" ");
            commands.append(files_url);
            commands.append(build);
            commands.append("\necho '");
            commands.append(digest.as_str());
            commands.append("  ");
            commands.append(tool);
            commands.append("' | sha256sum -c\nchmod +x ");
            commands.append(tool);
            let mut run = String::from_str("./");
            run.append(tool);
            (markup::escape(commands.as_str()), run)
        },
        None => {
            let mut commands = String::from_str("nix build ");
            commands.append(flake);
            commands.append("#");
            commands.append(build);
            let mut run = String::from_str("./result/bin/");
            run.append(tool);
            (markup::escape(commands.as_str()), run)
        },
    }
}

/// How the try-it gets an agent, and what it then runs: the same `metsuke` that the install step,
/// the units and every later command name.
pub fn try_it(offered: &[File], files_url: &str, flake: &str) -> (r: (String, String))
    ensures
        (r.0@, r.1@) == got(
            http::offers(offered@),
            files_url@,
            flake@,
            BINARY_X86_64@,
            "metsuke"@,
        ),
{
    get_it(offered, files_url, flake, BINARY_X86_64, "metsuke")
}

/// How the analysis page hands over the fetch tool, and what it then runs.
pub fn fetch_it(offered: &[File], files_url: &str, flake: &str) -> (r: (String, String))
    ensures
        (r.0@, r.1@) == got(
            http::offers(offered@),
            files_url@,
            flake@,
            FETCH_BINARY_X86_64@,
            "metsuke-fetch"@,
        ),
{
    get_it(offered, files_url, flake, FETCH_BINARY_X86_64, "metsuke-fetch")
}

/// The names of the files the pages offer.
pub open spec fn file_names() -> Seq<Seq<char>> {
    seq![
        "config.pipe.toml"@,
        "config.journald.toml"@,
        "config.minimal.toml"@,
        "config.example.toml"@,
        "metsuke.service"@,
        "metsuke-journald.service"@,
        "node-pipe.conf"@,
        "cardano-node.service"@,
        "analytics.sql"@,
        "archive.sql"@,
    ]
}

/// The names of the files the pages offer.
pub fn files_offered() -> (r: Vec<&'static str>)
    ensures
        r@.map_values(|name: &'static str| name@) == file_names(),
        r@.len() == 10,
{
    let mut r: Vec<&'static str> = Vec::new();
    r.push("config.pipe.toml");
    r.push("config.journald.toml");
    r.push("config.minimal.toml");
    r.push("config.example.toml");
    r.push("metsuke.service");
    r.push("metsuke-journald.service");
    r.push("node-pipe.conf");
    r.push("cardano-node.service");
    r.push("analytics.sql");
    r.push("archive.sql");
    assert(r@.map_values(|name: &'static str| name@) =~= file_names());
    r
}

/// A text with its references to some files made links to them.
pub open spec fn linked(s: Seq<char>, files_url: Seq<char>, names: Seq<Seq<char>>) -> Seq<char>
    decreases names.len(),
{
    if names.len() == 0 {
        s
    } else {
        search::replaced(
            linked(s, files_url, names.drop_last()),
            "contrib/"@ + names.last(),
            files_url + names.last(),
        )
    }
}

/// A shipped file's references to its siblings, made reachable. In the repository
/// `contrib/config.pipe.toml` is where that file sits; to an operator holding a download it is a
/// path to nothing, and this deployment serves the same file. A name this server does not answer
/// for keeps pointing at the repository instead of becoming a dead link.
pub fn siblings_linked(s: &str, files_url: &str) -> (r: String)
    ensures
        r@ == linked(s@, files_url@, file_names()),
{
    let names = files_offered();
    let ghost all = file_names();
    let mut r = String::from_str(s);
    for i in 0..names.len()
        invariant
            names@.map_values(|name: &'static str| name@) == all,
            r@ == linked(s@, files_url@, all.take(i as int)),
    {
        let mut from = String::from_str("contrib/");
        from.append(names[i]);
        let mut to = String::from_str(files_url);
        to.append(names[i]);
        proof {
            assert(all[i as int] == names@.map_values(|name: &'static str| name@)[i as int]);
            assert(all.take(i + 1).drop_last() =~= all.take(i as int));
            assert(all.take(i + 1).last() == names@[i as int]@);
        }
        r = search::replace(r.as_str(), from.as_str(), to.as_str());
    }
    assert(all.take(all.len() as int) =~= all);
    r
}

/// A shipped config with its upload URL replaced by another, once the one it states was found or
/// was not.
pub open spec fn repointed(
    config: Seq<char>,
    found: Result<Option<Seq<char>>, Seq<char>>,
    submit_url: Seq<char>,
) -> Result<Seq<char>, Seq<char>> {
    match shipped::shipped_field(found, "upload_url"@) {
        Err(reason) => Err(reason),
        Ok(example) => Ok(search::replaced(config, example, submit_url)),
    }
}

/// A shipped config with its upload URL replaced by another: see `repointed`.
pub fn repoint(config: &str, found: Result<Option<String>, String>, submit_url: &str) -> (r: Result<
    String,
    Broken,
>)
    ensures
        match r {
            Ok(pointed) => repointed(config@, shipped::found_view(found), submit_url@) == Ok::<
                Seq<char>,
                Seq<char>,
            >(pointed@),
            Err(error) => repointed(config@, shipped::found_view(found), submit_url@) == Err::<
                Seq<char>,
                Seq<char>,
            >(error@),
        },
{
    match shipped::field_of(found, "upload_url") {
        Err(error) => Err(error),
        Ok(example) => Ok(search::replace(config, example.as_str(), submit_url)),
    }
}

/// A shipped config pointed at a deployment.
pub open spec fn pointed_text(config: Seq<char>, submit_url: Seq<char>) -> Result<
    Seq<char>,
    Seq<char>,
> {
    repointed(config, outside::toml_text_of(config, "upload_url"@), submit_url)
}

/// A shipped config with its upload URL pointed at this deployment, so the only line an operator
/// edits is their pool id. The URL to replace is read out of the file's own `upload_url`, so that
/// the example host lives in one place.
pub fn pointed_at(config: &str, submit_url: &str) -> (r: Result<String, Broken>)
    ensures
        match r {
            Ok(pointed) => pointed_text(config@, submit_url@) == Ok::<Seq<char>, Seq<char>>(
                pointed@,
            ),
            Err(error) => pointed_text(config@, submit_url@) == Err::<Seq<char>, Seq<char>>(error@),
        },
{
    let found = outside::toml_text(config, "upload_url");
    repoint(config, found, submit_url)
}

/// Two files under one name. Only a deployment's own builds can name one.
#[derive(Debug)]
pub struct Shadowed {
    pub name: String,
}

impl Shadowed {
    /// What an operator reads.
    pub fn message(&self) -> (r: String)
        ensures
            r@ == self.name@
                + " would be served twice: rename or drop the [downloads] entry naming it"@,
    {
        let mut r = self.name.clone();
        r.append(" would be served twice: rename or drop the [downloads] entry naming it");
        r
    }
}

/// The first of some files, from `from` on, whose name an earlier one has.
pub open spec fn shadowed(files: Seq<http::Offered>, from: int) -> Option<Seq<char>>
    decreases files.len() - from,
{
    if from < 0 || from >= files.len() {
        None
    } else if exists|i: int| 0 <= i < from && (#[trigger] files[i]).name == files[from].name {
        Some(files[from].name)
    } else {
        shadowed(files, from + 1)
    }
}

/// Hold files to one per name: a second one under a name already held is refused rather than
/// resolved. A lookup answers with the first, while the checksums are derived from the builds, so a
/// name held twice would publish the digest of bytes it does not serve.
pub fn one_per_name(files: &[File]) -> (r: Result<(), Shadowed>)
    ensures
        match r {
            Ok(()) => shadowed(http::offers(files@), 0) is None,
            Err(error) => shadowed(http::offers(files@), 0) == Some(error.name@),
        },
{
    let ghost all = http::offers(files@);
    for i in 0..files.len()
        invariant
            all == http::offers(files@),
            shadowed(all, 0) == shadowed(all, i as int),
    {
        for j in 0..i
            invariant
                all == http::offers(files@),
                i < files@.len(),
                shadowed(all, 0) == shadowed(all, i as int),
                forall|k: int| 0 <= k < j ==> (#[trigger] all[k]).name != all[i as int].name,
        {
            assert(all[j as int].name == files@[j as int].name@);
            assert(all[i as int].name == files@[i as int].name@);
            if text::same(files[j].name.as_str(), files[i].name.as_str()) {
                return Err(Shadowed { name: files[i].name.clone() });
            }
        }
    }
    Ok(())
}

/// Where nothing is shadowed, every file is what its own name answers with.
pub proof fn a_name_answers_with_its_file(files: Seq<http::Offered>, i: int)
    requires
        shadowed(files, 0) is None,
        0 <= i < files.len(),
    ensures
        http::file_named(files, files[i].name) == Some(files[i]),
{
    lemma_unshadowed(files, 0, i);
    lemma_found_at(files, 0, i);
    assert(files.skip(0) =~= files);
}

proof fn lemma_unshadowed(files: Seq<http::Offered>, from: int, i: int)
    requires
        0 <= from <= i < files.len(),
        shadowed(files, from) is None,
    ensures
        forall|j: int| 0 <= j < i ==> (#[trigger] files[j]).name != files[i].name,
    decreases i - from,
{
    if from < i {
        lemma_unshadowed(files, from + 1, i);
    }
}

proof fn lemma_found_at(files: Seq<http::Offered>, from: int, i: int)
    requires
        0 <= from <= i < files.len(),
        forall|j: int| 0 <= j < i ==> (#[trigger] files[j]).name != files[i].name,
    ensures
        http::file_named(files.skip(from), files[i].name) == Some(files[i]),
    decreases i - from,
{
    let rest = files.skip(from);
    assert(rest[0] == files[from]);
    if from < i {
        lemma_found_at(files, from + 1, i);
        assert(rest.skip(1) =~= files.skip(from + 1));
    }
}

/// What a page shows of a build is what is served: where a file of that name is offered, the page
/// downloads it and checks it against the digest of the very bytes that are offered; where none is,
/// the page builds it and downloads nothing.
pub proof fn a_page_shows_the_served_digest(
    offered: Seq<http::Offered>,
    name: Seq<char>,
)
    ensures
        offered_digest(offered, name) is Some <==> exists|i: int|
            0 <= i < offered.len() && (#[trigger] offered[i]).name == name,
        offered_digest(offered, name) matches Some(digest) ==> exists|i: int|
            0 <= i < offered.len() && (#[trigger] offered[i]).name == name && digest
                == hex::encoded(outside::sha256_of(offered[i].bytes)),
        is_offered(offered, name) <==> offered_digest(offered, name) is Some,
{
    http::a_file_is_found_by_name(offered, name);
    if let Some(file) = http::file_named(offered, name) {
        let i = choose|i: int| 0 <= i < offered.len() && offered[i] == file;
        assert(offered[i].name == name);
    }
}

/// A config that is served names this server: whatever address it was shipped with is replaced, and
/// one that names none is refused.
pub proof fn a_config_points_at_this_server(
    before: Seq<char>,
    example: Seq<char>,
    behind: Seq<char>,
    submit_url: Seq<char>,
)
    requires
        example.len() > 0,
        forall|i: int|
            0 <= i < before.len() ==> !#[trigger] text::stands_at(
                before + example + behind,
                example,
                i,
            ),
    ensures
        repointed(before + example + behind, Ok(Some(example)), submit_url) == Ok::<
            Seq<char>,
            Seq<char>,
        >(before + submit_url + search::replaced(behind, example, submit_url)),
        repointed(before, Ok(None), submit_url) is Err,
{
    search::replacing_goes_on(before, example, behind, submit_url);
}

/// A page has a tool where it can be had: downloaded and checked where a build of it is offered,
/// and else built; it is run from where that leaves it.
pub proof fn a_tool_is_had_where_it_is_offered(
    offered: Seq<http::Offered>,
    files_url: Seq<char>,
    flake: Seq<char>,
    build: Seq<char>,
    tool: Seq<char>,
)
    ensures
        is_offered(offered, build) ==> got(offered, files_url, flake, build, tool).1 == "./"@ + tool,
        !is_offered(offered, build) ==> got(offered, files_url, flake, build, tool).1
            == "./result/bin/"@ + tool,
        offered_digest(offered, build) matches Some(digest) ==> got(
            offered,
            files_url,
            flake,
            build,
            tool,
        ).0 == markup::escaped("curl -fo "@ + tool + " "@ + files_url + build + "\necho '"@)
            + markup::escaped(digest) + markup::escaped(
            "  "@ + tool + "' | sha256sum -c\nchmod +x "@ + tool,
        ),
{
    if let Some(digest) = offered_digest(offered, build) {
        let before = "curl -fo "@ + tool + " "@ + files_url + build + "\necho '"@;
        let behind = "  "@ + tool + "' | sha256sum -c\nchmod +x "@ + tool;
        assert(before + digest + behind =~= "curl -fo "@ + tool + " "@ + files_url + build
            + "\necho '"@ + digest + "  "@ + tool + "' | sha256sum -c\nchmod +x "@ + tool);
        markup::escaping_goes_by_character(before, digest, ' ');
        markup::escaping_goes_by_character(before + digest, behind, ' ');
    }
}

}
