//! The onboarding pages, rendered from small documents.

use metsuke::server::http;
use metsuke::server::instructions::deployment::{
    checksum_for, digest_of, fetch_it, files_offered, install, offers_a_build, one_per_name,
    pointed_at, repoint, siblings_linked, try_it, PublicUrl, BINARY_X86_64, OCTETS,
};
use metsuke::server::instructions::example::{example_submission, EXAMPLE_INSTANT};
use metsuke::server::instructions::markup::{escape, fill, nav, sequence, toc};
use metsuke::server::instructions::shipped::{
    credential_source, exec_start, failure_reasons, journal_shown, metadata_json, parent_of,
    trace_config, ExecStartField, MetricsEndpoint, Repository,
};
use metsuke::server::instructions::{
    analysis, details, pages, quickstart, Assets, Binary, File, PagesError,
};

const UNIT: &str = "[Service]\n\
ExecStart=/usr/local/bin/metsuke --config /etc/metsuke/config.toml\n\
LoadCredential=signing-key:/etc/metsuke/cold.skey\n";

const CONFIG: &str = "# where to send\n\
upload_url = \"https://old.example/v1/submit\"\n\
metrics_url = \"http://127.0.0.1:12798/metrics\"\n";

fn shared() -> String {
    "{{ICON_PATH}}{{ICON_CONTENT_TYPE}}{{style}}{{logo}}{{nav}}{{toc}}{{sequence}}".to_string()
}

fn page(names: &[&str]) -> String {
    let mut page = shared();
    page.push_str("<h2 id=\"one\">One</h2>");
    for name in names {
        page.push_str(&format!("[{name}={{{{{name}}}}}]"));
    }
    page
}

fn assets() -> Assets {
    let text = |word: &str| word.to_string();
    Assets {
        quickstart: page(&[
            "DETAILS_PATH",
            "FILES_PREFIX",
            "CLIENT_VERSION",
            "files_url",
            "journal",
            "try_fetch",
            "try_agent",
            "install",
            "config_path",
            "key_path",
            "config_dir",
            "flake",
        ]),
        details: page(&[
            "PATH",
            "ANALYSIS_PATH",
            "HEADER_VKEY",
            "HEADER_SIGNATURE",
            "HEADER_POOL",
            "METADATA_LABEL",
            "metadata",
            "flake",
            "DOCS_PREFIX",
            "REPOSITORY",
            "envelope",
            "reasons",
            "backend",
            "traces",
            "metrics_url",
            "submit_url",
            "FILES_PREFIX",
            "binary",
            "config_path",
            "key_path",
        ]),
        analysis: page(&[
            "PATH",
            "DETAILS_PATH",
            "FILES_PREFIX",
            "DOCS_PREFIX",
            "REPOSITORY",
            "flake",
            "files_url",
            "fetch_install",
            "fetch",
            "server_url",
            "REALM",
        ]),
        style: text("<style></style>\n"),
        logo: text("<svg/>\n"),
        journal: text("metsuke starting\n"),
        envelope: text("{\"counter\":1}"),
        reasons: vec![text("unreachable")],
        client_version: text("0.3.0"),
        repository: Repository::new(text("https://github.com/pool/metsuke")).expect("GitHub"),
        config_pipe: text(CONFIG),
        config_journald: text(CONFIG),
        config_minimal: text(CONFIG),
        config_example: text(CONFIG),
        unit: text(UNIT),
        unit_journald: text(UNIT),
        pipe_dropin: text("[Service]\n"),
        node_unit: text("[Service]\n"),
        analytics_sql: text("select 1;\n"),
        archive_sql: text("select 2;\n"),
    }
}

fn public() -> PublicUrl {
    PublicUrl::parse("https://metsuke.example").expect("a URL")
}

fn build(name: &str, bytes: &[u8]) -> File {
    File {
        name: name.to_string(),
        bytes: bytes.to_vec(),
        content_type: OCTETS,
    }
}

/// SHA-256 of `abc`.
const ABC: &str = "ba7816bf8f01cfea414140de5dae2223b00361a396177a9cb410ff61f20015ad";

#[test]
fn what_would_be_markup_is_escaped() {
    assert_eq!(
        escape("<a href='x'>\"&\"</a>"),
        "&lt;a href=&#39;x&#39;&gt;&quot;&amp;&quot;&lt;/a&gt;"
    );
}

#[test]
fn a_template_is_filled_once_and_completely() {
    let values = [("a", "{{b}}".to_string()), ("b", "2".to_string())];
    assert_eq!(
        fill("x{{a}}y{{b}}z{{a}}", &values).expect("both are named"),
        "x{{b}}y2z{{b}}"
    );
    assert_eq!(fill("plain }}", &[]).expect("no placeholder"), "plain }}");
    let said = |template: &str| fill(template, &values).expect_err("it breaks").reason;
    assert_eq!(said("{{a}}"), "the template does not name b");
    assert_eq!(said("{{c}}"), "the template names c, which nothing fills");
    assert_eq!(said("{{a"), "a placeholder the template opens is not closed");
}

#[test]
fn the_navigation_marks_the_page_it_is_on() {
    let shown = nav("/details");
    assert!(shown.contains("<li><a href=\"/details\" aria-current=\"page\">Details</a>"));
    assert!(shown.contains("<li><a href=\"/\">Quickstart</a>"));
    let first = sequence("/");
    assert!(!first.contains("prev") && first.contains("href=\"/details\""));
    let last = sequence("/analysis");
    assert!(last.contains("href=\"/details\"") && !last.contains("next"));
}

#[test]
fn the_contents_list_every_section() {
    let shown = toc("<h2 id=\"a\">A</h2> x <h2 id=\"b\">B</h2>").expect("two sections");
    assert!(shown.contains("<li><a href=\"#a\">A</a>\n<li><a href=\"#b\">B</a>"));
    for (template, said) in [
        ("<h2>A</h2>", "every section needs an id for the contents to link it by"),
        ("", "a page lists no sections at all"),
        ("<h2 id=\"a\">A", "a section heading does not close"),
        (
            "<h2 id=\"a\"><b>A</b></h2>",
            "the section a carries markup the contents cannot show",
        ),
    ] {
        assert_eq!(toc(template).expect_err("it breaks").reason, said);
    }
}

#[test]
fn paths_come_out_of_the_unit() {
    assert_eq!(
        exec_start(UNIT, ExecStartField::Binary).expect("named"),
        "/usr/local/bin/metsuke"
    );
    assert_eq!(
        exec_start(UNIT, ExecStartField::Config).expect("named"),
        "/etc/metsuke/config.toml"
    );
    assert_eq!(
        credential_source(UNIT).expect("named"),
        "/etc/metsuke/cold.skey"
    );
    assert_eq!(
        exec_start("", ExecStartField::Binary).expect_err("none").reason,
        "the shipped unit has no ExecStart"
    );
    assert!(exec_start("ExecStart=/bin/x --config", ExecStartField::Config).is_err());
    assert!(credential_source("LoadCredential=x\n").is_err());
    assert_eq!(parent_of("/etc/metsuke/config.toml"), "/etc/metsuke");
    assert_eq!(parent_of("config.toml"), "/");
}

/// Only the line that dumps every setting is cut, and at a comma.
#[test]
fn the_recording_is_shown_short() {
    let line = format!("config: {{\"a\":1,\"b\":\"{}\",\"c\":2}}", "x".repeat(60));
    let shown = journal_shown(&format!("starting\n{line}\ndone\n"));
    assert_eq!(shown, "starting\nconfig: {\"a\":1, \u{2026}}\ndone");
}

#[test]
fn the_endpoint_comes_out_of_the_example() {
    let endpoint = MetricsEndpoint::from_config(CONFIG).expect("named");
    assert_eq!(endpoint.url(), "http://127.0.0.1:12798/metrics");
    assert_eq!((endpoint.host.as_str(), endpoint.port), ("127.0.0.1", 12798));
    assert!(endpoint
        .backend_config()
        .contains("PrometheusSimple 127.0.0.1 12798"));
    for (config, said) in [
        ("x = 1", "a shipped config does not set metrics_url"),
        (
            "metrics_url = \"nope\"",
            "the example metrics_url does not parse as a URL",
        ),
        (
            "metrics_url = \"data:x\"",
            "the example metrics_url has no host",
        ),
        (
            "metrics_url = \"http://h/m\"",
            "the example metrics_url has no port",
        ),
    ] {
        assert_eq!(
            MetricsEndpoint::from_config(config)
                .expect_err("it breaks")
                .reason,
            said
        );
    }
    assert!(MetricsEndpoint::from_config("= 1")
        .expect_err("no TOML")
        .reason
        .starts_with("a shipped config does not parse as TOML: "));
}

#[test]
fn a_build_is_offered_with_its_digest() {
    let offered = [build(BINARY_X86_64, b"abc")];
    assert_eq!(digest_of(&offered, BINARY_X86_64), Some(ABC.to_string()));
    assert_eq!(digest_of(&offered, "other"), None);
    let checksum = checksum_for(&offered[0]);
    assert_eq!(checksum.name, format!("{BINARY_X86_64}.sha256"));
    assert_eq!(
        checksum.bytes,
        format!("{ABC}  {BINARY_X86_64}\n").into_bytes()
    );
    assert!(offers_a_build(&offered) && !offers_a_build(&[]));
    let (fetch, run) = try_it(&offered, "https://h/files/", "github:p/m");
    assert!(fetch.contains(ABC), "{fetch}");
    assert_eq!(run, "./metsuke");
    let (fetch, run) = fetch_it(&offered, "https://h/files/", "github:p/m");
    assert_eq!(
        fetch,
        "nix build github:p/m#metsuke-fetch-static-x86_64-linux"
    );
    assert_eq!(run, "./result/bin/metsuke-fetch");
    assert!(install(&offered, "https://h/files/", "/bin/metsuke", "f").contains("sha256sum -c"));
    assert!(install(&[], "https://h/files/", "/bin/metsuke", "f").contains("nix build f#"));
}

#[test]
fn a_served_config_points_at_this_deployment() {
    let pointed = pointed_at(CONFIG, "https://new.example/v1/submit").expect("it names a server");
    assert!(pointed.contains("upload_url = \"https://new.example/v1/submit\""), "{pointed}");
    assert!(!pointed.contains("old.example"), "{pointed}");
    assert!(pointed_at("x = 1", "u").is_err());
    assert!(repoint("a", Err("bad".to_string()), "u").is_err());
    assert_eq!(
        siblings_linked(
            "see contrib/config.example.toml and contrib/other",
            "https://h/files/"
        ),
        "see https://h/files/config.example.toml and contrib/other"
    );
}

#[test]
fn no_two_files_share_a_name() {
    assert!(one_per_name(&[build("a", b""), build("b", b"")]).is_ok());
    let error = one_per_name(&[build("a", b""), build("a", b"x")]).expect_err("twice");
    assert_eq!(
        error.message(),
        "a would be served twice: rename or drop the [downloads] entry naming it"
    );
    assert_eq!(files_offered().len(), 10);
}

#[test]
fn a_deployment_is_reached_where_its_url_says() {
    let at = public();
    assert_eq!(at.url(), "https://metsuke.example/");
    assert_eq!(at.files_url(), "https://metsuke.example/files/");
    assert_eq!(at.submit_url(), "https://metsuke.example/v1/submit");
    assert!(PublicUrl::parse("nope")
        .expect_err("no URL")
        .reason
        .starts_with("the public URL does not parse: "));
    assert_eq!(
        PublicUrl::parse("data:x").expect_err("no path").reason,
        "the public URL takes no path"
    );
}

#[test]
fn the_repository_is_on_github() {
    let repository =
        Repository::new("https://github.com/pool/metsuke".to_string()).expect("GitHub");
    assert_eq!(repository.url(), "https://github.com/pool/metsuke");
    assert_eq!(
        repository.docs_prefix(),
        "https://github.com/pool/metsuke/blob/main/"
    );
    assert_eq!(repository.flake_ref(), "github:pool/metsuke");
    assert!(Repository::new("https://example.com/x".to_string()).is_err());
}

#[test]
fn what_the_pages_quote_is_json() {
    for text in [metadata_json(), trace_config()] {
        assert!(
            serde_json::from_str::<serde_json::Value>(&text).is_ok(),
            "{text}"
        );
    }
    assert_eq!(
        failure_reasons(&["a".to_string(), "<b>".to_string()]),
        "<code>a</code>, <code>&lt;b&gt;</code>"
    );
}

/// Every build is served beside its checksum, and what a checksum says is of what is served.
#[test]
fn the_whole_onboarding_is_served() {
    let rendered = pages(
        &assets(),
        &public(),
        vec![Binary {
            name: BINARY_X86_64.to_string(),
            bytes: b"abc".to_vec(),
        }],
    )
    .expect("every document fills");
    assert!(rendered.quickstart.contains("[CLIENT_VERSION=0.3.0]"));
    assert!(rendered.quickstart.contains(ABC));
    assert!(rendered
        .details
        .contains("[submit_url=https://metsuke.example/v1/submit]"));
    assert!(rendered.analysis.contains("[REALM=metsuke archive]"));
    let served = http::Pages::from(rendered, "<svg/>");
    let (_, bytes) = served
        .at(&format!("/files/{BINARY_X86_64}.sha256"))
        .expect("its checksum");
    assert_eq!(bytes, format!("{ABC}  {BINARY_X86_64}\n").as_bytes());
    let (kind, bytes) = served
        .at(&format!("/files/{BINARY_X86_64}"))
        .expect("the build");
    assert_eq!((kind, bytes), (OCTETS, b"abc".as_slice()));
    for name in files_offered() {
        assert!(served.at(&format!("/files/{name}")).is_some(), "{name}");
    }
}

#[test]
fn a_document_that_does_not_fill_is_not_served() {
    let twice = pages(
        &assets(),
        &public(),
        vec![Binary {
            name: "metsuke.service".to_string(),
            bytes: Vec::new(),
        }],
    );
    assert!(matches!(twice, Err(PagesError::Shadowed(_))));
    let torn = Assets {
        analysis: page(&[]),
        ..assets()
    };
    assert!(matches!(
        pages(&torn, &public(), Vec::new()),
        Err(PagesError::Broken(_))
    ));
    assert!(quickstart(&assets(), "", &public(), &[]).is_err());
    assert!(details(&assets(), "x = 1", &public()).is_err());
    assert!(analysis(&assets(), &public(), &[]).is_ok());
}

#[test]
fn the_example_submission_is_a_scrape() {
    let shown = example_submission("0.3.0");
    assert_eq!(shown.client_version, "0.3.0");
    assert_eq!(shown.timestamp, EXAMPLE_INSTANT);
    assert!(!shown.scrapes.is_empty());
}
