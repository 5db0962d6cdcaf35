//! Every value an operator sets. No field has a default: a missing limit is a deployment mistake,
//! not a value to guess, and zero is the same mistake wherever it means nothing.

use vstd::prelude::*;

use crate::count::{NonZeroU32, NonZeroU64};
use crate::path;
use crate::server::applications::Codes;

verus! {

/// A path the config states in full. Relative would be resolved against whatever directory the
/// process happened to start in.
#[derive(Debug, PartialEq, Eq)]
pub struct AbsolutePath {
    path: String,
}

/// A path that is not stated in full.
#[derive(Debug)]
pub struct NotAbsolute {
    pub found: String,
}

impl View for AbsolutePath {
    type V = Seq<char>;

    closed spec fn view(&self) -> Seq<char> {
        self.path@
    }
}

impl AbsolutePath {
    #[verifier::type_invariant]
    spec fn stated_in_full(self) -> bool {
        path::absolute(self.path@)
    }

    /// The path, where it is stated in full.
    pub fn new(path: String) -> (r: Result<AbsolutePath, NotAbsolute>)
        ensures
            match r {
                Ok(absolute) => path::absolute(path@) && absolute@ == path@,
                Err(error) => !path::absolute(path@) && error.found@ == path@,
            },
    {
        if path::is_absolute(path.as_str()) {
            Ok(AbsolutePath { path })
        } else {
            Err(NotAbsolute { found: path })
        }
    }

    /// The path itself.
    pub fn as_path(&self) -> (r: &str)
        ensures
            r@ == self@,
            path::absolute(r@),
    {
        proof {
            use_type_invariant(self);
        }
        self.path.as_str()
    }
}

impl Clone for AbsolutePath {
    fn clone(&self) -> (r: Self)
        ensures
            r@ == self@,
    {
        proof {
            use_type_invariant(self);
        }
        AbsolutePath { path: self.path.clone() }
    }
}

impl NotAbsolute {
    /// What an operator reads.
    pub fn message(&self) -> (r: String)
        ensures
            r@ == self.found@ + " must be an absolute path"@,
    {
        let mut r = self.found.clone();
        r.append(" must be an absolute path");
        r
    }
}

/// Where each architecture's static agent is on this host.
#[derive(Debug)]
pub struct DownloadsConfig {
    pub x86_64_linux: AbsolutePath,
    pub aarch64_linux: AbsolutePath,
}

/// What the transport refuses, as against what the intake refuses. Every field bounds one way a
/// client can hold a connection open without finishing with it.
#[derive(Debug, Clone, Copy)]
pub struct HttpConfig {
    /// How long a connection may take to deliver a complete request head.
    pub idle_timeout_ms: NonZeroU64,
    /// Deadline for the whole request body, not for one read of it.
    pub read_timeout_ms: NonZeroU64,
    /// How long a write may make no progress.
    pub write_timeout_ms: NonZeroU64,
    /// Connections served at once, held from accept to close.
    pub max_concurrent_requests: NonZeroU32,
}

/// The accounts that may pull the archive back out.
#[derive(Debug)]
pub struct DeveloperConfig {
    /// The user developers authenticate as. Public, as this whole file is.
    pub user: String,
    /// A file holding the secret and nothing else.
    pub password_file: AbsolutePath,
    /// Keys one listing may answer with.
    pub list_max_rows: NonZeroU32,
}

/// The bucket and how long the server waits on it.
#[derive(Debug)]
pub struct S3Config {
    pub bucket: String,
    pub region: String,
    /// Endpoint URL, bucket name excluded.
    pub endpoint: String,
    /// Deadline for one S3 request.
    pub request_timeout_ms: NonZeroU64,
    /// How long a presigned URL stays usable.
    pub signature_validity_secs: NonZeroU64,
    /// Extra PUT attempts after the first. Zero is the deliberate choice to let the client's spool
    /// be the only retry layer.
    pub put_retries: u32,
    /// Waited between PUT attempts.
    pub put_retry_backoff_ms: NonZeroU64,
    /// Pages a bucket listing may take before it fails naming the bound.
    pub list_max_pages: NonZeroU32,
}

/// Where accepted submissions go.
#[derive(Debug)]
pub enum ArchiveConfig {
    Filesystem { root: String },
    S3(S3Config),
}

/// What the intake checks an upload against.
#[derive(Debug)]
pub struct IngestConfig {
    /// The participating pools against the application code each was onboarded on.
    pub allowlist: Codes,
    /// Where the key roster is read from. Absent is what refuses a Leios-key submission.
    pub leios_roster: Option<AbsolutePath>,
    /// Cap on the body as sent, header frame and data frame together.
    pub max_body_bytes: NonZeroU64,
    /// Cap on the header frame a submission declares.
    pub max_header_bytes: NonZeroU64,
    /// How far either way a submission's sealed timestamp may sit from this server's clock.
    pub max_timestamp_skew_secs: NonZeroU32,
    /// Uploads one pool may make per window.
    pub rate_limit_uploads: NonZeroU32,
    /// Uploads every pool together may make in the same window.
    pub rate_limit_uploads_total: NonZeroU32,
    pub rate_limit_window_secs: NonZeroU32,
}

/// The whole config file.
#[derive(Debug)]
pub struct ServerConfig {
    /// `host:port` to bind.
    pub listen: String,
    /// Where operators reach this server.
    pub public_url: String,
    pub http: HttpConfig,
    pub archive: ArchiveConfig,
    pub ingest: IngestConfig,
    pub developer: DeveloperConfig,
    /// The static agent builds this deployment offers.
    pub downloads: Option<DownloadsConfig>,
}

/// The db-sync a pool's registrations are read from.
#[derive(Debug)]
pub struct CalidusConfig {
    pub psql_path: AbsolutePath,
    pub socket_dir: AbsolutePath,
    pub dbname: String,
    pub role: String,
    pub query_timeout_secs: NonZeroU64,
    pub password_file: AbsolutePath,
}

}
