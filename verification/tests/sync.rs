//! What a sync has to hold, against the shipped routes: the bytes that land are the archived
//! object, an interrupted run resumes rather than restarts, and the filters select without
//! downloading.
//!
//! Everything is in memory. Requests are decided by the server's own routes, the listing body is
//! the one it writes, and a map stands for the two file systems.

use std::cell::RefCell;
use std::collections::BTreeMap;

use ed25519_dalek::{Signer, SigningKey};
use metsuke::count::{NonZeroU32, NonZeroU64};
use metsuke::fetch::cursor::{Cursor, StateFile};
use metsuke::fetch::pull::{answered, take_length, whole, Archive, Object, PullError};
use metsuke::fetch::recipe;
use metsuke::fetch::select::{Days, Filters, Selection};
use metsuke::fetch::staged;
use metsuke::fetch::summary;
use metsuke::fetch::sync;
use metsuke::fetch::sync::{Action, Asked, Pages, Report, Run, State, SyncError};
use metsuke::fetch::verification::{Insist, Verification};
use metsuke::key::{Kind, ObjectName, KEY_PREFIX};
use metsuke::server::archive::{page, ArchiveError};
use metsuke::server::config::{AbsolutePath, DeveloperConfig};
use metsuke::server::developer::{Accounts, Developer};
use metsuke::server::http;
use metsuke::server::http::{Answer, AnswerBody, Method, ObjectHead, Request, Step};
use metsuke::server::authority::AttributionError;
use metsuke::wire::agent::AgentId;
use metsuke::wire::attestation::{
    Attestation, HeaderError, LeiosPublicKey, HEADER_SIGNATURE, HEADER_VKEY,
};
use metsuke::wire::envelope::{split, SKIPPABLE_MAGIC};
use metsuke::wire::http::Listing;
use metsuke::wire::pool::PoolId;
use metsuke::wire::signing::{Signature, VerifyingKey};

/// The one account the routes authenticate.
const USER: &str = "developer";
const PASSWORD: &str = "the-shared-account";

const URL: &str = "http://archive.test:8080";
const INTO: &str = "/downloads/objects";
const STATE: &str = "/downloads/cursor.json";

/// The all-sevens test seed.
fn test_key() -> SigningKey {
    SigningKey::from_bytes(&[7u8; 32])
}

/// A second pool's key, so the archive holds more than one pool's objects.
fn other_key() -> SigningKey {
    SigningKey::from_bytes(&[9u8; 32])
}

fn vkey_of(key: &SigningKey) -> VerifyingKey {
    VerifyingKey::from_bytes(&key.verifying_key().to_bytes()).expect("a seed makes a key")
}

fn pool_of(key: &SigningKey) -> PoolId {
    PoolId::from_cold_key(&vkey_of(key))
}

fn test_now() -> u64 {
    1_755_000_000
}

/// The pair an archive answers beside an object.
#[derive(Clone)]
enum Pair {
    Cold([u8; 32], [u8; 64]),
    Leios,
}

impl Pair {
    fn signed(signer: &SigningKey, bytes: &[u8]) -> Pair {
        Pair::Cold(
            signer.verifying_key().to_bytes(),
            signer.sign(bytes).to_bytes(),
        )
    }

    fn attestation(&self) -> Attestation {
        match self {
            Pair::Cold(key, signature) => Attestation::ColdKey {
                vkey: VerifyingKey::from_bytes(key).expect("a seed makes a key"),
                signature: Signature::from_bytes(signature),
            },
            Pair::Leios => Attestation::LeiosKey {
                key: LeiosPublicKey {
                    bytes: vec![3u8; 96],
                },
                vote: vec![5u8; 48],
            },
        }
    }
}

/// One object as the archive holds it: the key it is filed under and the signed bytes stored there.
struct Stored {
    bytes: Vec<u8>,
    pair: Option<Pair>,
    readable: bool,
}

/// A server over one archive, with the objects the test seeded in it.
struct Server {
    developer: Developer,
    seeded: Vec<String>,
    stored: RefCell<BTreeMap<String, Stored>>,
}

/// A header and a data frame behind it, as an agent seals them.
fn sealed(header: &str, data: &[u8]) -> Vec<u8> {
    let mut wire = SKIPPABLE_MAGIC.to_le_bytes().to_vec();
    wire.extend((header.len() as u32).to_le_bytes());
    wire.extend(header.as_bytes());
    wire.extend(data);
    wire
}

impl Server {
    /// Serve `count` objects, `list_max_rows` keys to a page, with nothing to check them by. That
    /// is what a filesystem archive answers, so it is what every test not about the checking meets.
    fn with_objects(count: usize, list_max_rows: u32) -> Server {
        Server::serving(count, list_max_rows, false)
    }

    /// The same, with each object's key and signature answered beside it, as an S3 archive holds
    /// them.
    fn attesting(count: usize, list_max_rows: u32) -> Server {
        Server::serving(count, list_max_rows, true)
    }

    fn serving(count: usize, list_max_rows: u32, attest: bool) -> Server {
        let mut seeded = Vec::new();
        let mut stored = BTreeMap::new();
        for index in 0..count {
            // Two pools, so a `--pool` filter has something to leave out; the agent and the kind
            // vary with the index for the same reason.
            let (key, kind) = match index % 2 {
                0 => (test_key(), Kind::Metrics),
                _ => (other_key(), Kind::Logs),
            };
            // A day apart each, so the date folder is a prefix a test can filter on.
            let name = ObjectName::stamped(
                test_now() + 86_400 * index as u64,
                0,
                pool_of(&key),
                AgentId::parse(&format!("relay-{index}")).expect("a fixed name is a slug"),
                kind,
            )
            .to_key();
            let bytes = sealed(&format!("{{\"counter\":{index}}}"), b"the data frame");
            let pair = match attest {
                true => Some(Pair::signed(&key, &bytes)),
                false => None,
            };
            seeded.push(name.clone());
            stored.insert(
                name,
                Stored {
                    bytes,
                    pair,
                    readable: true,
                },
            );
        }
        let accounts = Accounts::enrol(Ok(vec![(USER.to_string(), PASSWORD.to_string())]))
            .expect("one account enrols");
        Server {
            developer: Developer::new(
                &DeveloperConfig {
                    user: USER.to_string(),
                    password_file: AbsolutePath::new("/run/password".to_string())
                        .expect("stated in full"),
                    list_max_rows: NonZeroU32::new(list_max_rows).expect("above zero"),
                },
                accounts,
            ),
            seeded,
            stored: RefCell::new(stored),
        }
    }

    fn keys(&self) -> Vec<String> {
        self.seeded.clone()
    }

    fn pulling(&self) -> Archive {
        Archive::new(URL, USER, PASSWORD)
    }

    fn change(&self, key: &str, change: impl FnOnce(&mut Stored)) {
        change(
            self.stored
                .borrow_mut()
                .get_mut(key)
                .expect("the object is there"),
        );
    }

    /// One object the archive lists and cannot read.
    fn unreadable(&self, key: &str) {
        self.change(key, |stored| stored.readable = false);
    }

    /// One byte of a stored object flipped, leaving the metadata beside it alone: bytes that no
    /// longer stand under the signature the archive answers with.
    fn tamper(&self, key: &str) {
        self.change(key, |stored| {
            *stored
                .bytes
                .last_mut()
                .expect("a sealed object is not empty") ^= 0xff
        });
    }

    /// A stored object replaced by one another key sealed, answered with that key's own pair:
    /// bytes that verify, under a pool that is not the one the object is filed under.
    fn reseal_as(&self, key: &str, signer: &SigningKey) {
        let bytes = sealed("{\"counter\":1}", b"another data frame");
        let pair = Pair::signed(signer, &bytes);
        self.change(key, |stored| {
            stored.bytes = bytes;
            stored.pair = Some(pair);
        });
    }

    /// The archive answers a Leios pair for one object.
    fn leios_sign(&self, key: &str) {
        self.change(key, |stored| stored.pair = Some(Pair::Leios));
    }

    /// An object under a key that names nothing, which is what something other than this server
    /// would leave in the bucket.
    fn seed_foreign(&self, key: &str, bytes: &[u8]) {
        self.stored.borrow_mut().insert(
            key.to_string(),
            Stored {
                bytes: bytes.to_vec(),
                pair: None,
                readable: true,
            },
        );
    }

    /// What this server writes back to a request.
    fn answer(&self, archive: &Archive, url: &str) -> Answer {
        let request = Request {
            method: Method::Get,
            target: url
                .strip_prefix(URL)
                .expect("a url of this server")
                .to_string(),
            submission: Err(AttributionError::Attestation(HeaderError::Missing {
                header: HEADER_VKEY,
            })),
            authorization: Some(archive.authorization.clone()),
            body: Vec::new(),
        };
        let pages = http::Pages {
            quickstart: Vec::new(),
            details: Vec::new(),
            analysis: Vec::new(),
            icon: Vec::new(),
            files: Vec::new(),
        };
        match http::answer(&request, &self.developer, &pages) {
            Step::Done(done) => done.answer,
            Step::Submit => panic!("nothing here submits"),
            Step::List { filters, max_keys } => {
                let held: Vec<String> = self.stored.borrow().keys().cloned().collect();
                http::listed(Ok(page(&held, &filters.prefix, &filters.after, max_keys))).answer
            }
            Step::Object { key } => {
                let stored = self.stored.borrow();
                http::opened(match stored.get(&key) {
                    None => Err(ArchiveError::NoSuchObject { key }),
                    Some(found) if !found.readable => Err(ArchiveError::Io {
                        key,
                        reason: "permission denied".to_string(),
                    }),
                    Some(found) => Ok(ObjectHead {
                        length: found.bytes.len() as u64,
                        attestation: found.pair.as_ref().map(Pair::attestation),
                        key,
                    }),
                })
                .answer
            }
        }
    }

    fn list(&self, archive: &Archive, prefix: &str, after: &str) -> Result<Listing, PullError> {
        let url = archive.page_url(prefix, after);
        let answer = self.answer(archive, &url);
        let AnswerBody::Bytes(body) = answer.body else {
            panic!("a listing is no stream");
        };
        let body = String::from_utf8(body).expect("an answer is text");
        answered(&url, answer.status, &body)?;
        Ok(listing_of(&body))
    }

    fn download(&self, archive: &Archive, key: &str, max: NonZeroU64) -> Result<Object, PullError> {
        let url = archive.object_url(key);
        let answer = self.answer(archive, &url);
        let header = |name: &str| {
            answer
                .headers
                .iter()
                .find(|(found, _)| *found == name)
                .map(|(_, value)| value.as_str())
        };
        let attestation = Attestation::from_headers(header(HEADER_VKEY), header(HEADER_SIGNATURE));
        match answer.body {
            AnswerBody::Bytes(body) => {
                let body = String::from_utf8(body).expect("an answer is text");
                answered(&url, answer.status, &body)?;
                panic!("a download that succeeds is a stream");
            }
            AnswerBody::Stream {
                key: opened,
                length,
            } => {
                answered(&url, answer.status, "")?;
                let (owed, _) = take_length(key, Some(length), max)?;
                let bytes = self.stored.borrow()[&opened].bytes.clone();
                whole(key, owed, bytes, attestation)
            }
        }
    }
}

/// A listing body, read by its field names.
fn listing_of(body: &str) -> Listing {
    let read: serde_json::Value = serde_json::from_str(body).expect("a listing is JSON");
    Listing {
        keys: read["keys"]
            .as_array()
            .expect("keys is a list")
            .iter()
            .map(|key| key.as_str().expect("a key is text").to_string())
            .collect(),
        truncated: read["truncated"].as_bool().expect("truncated is a bool"),
    }
}

/// What a run was asked for, owned so a test can hold it across two runs.
struct Wanted {
    prefix: String,
    selection: Selection,
}

impl Wanted {
    fn filters<'a>(&'a self, days: &'a Days) -> Filters<'a> {
        Filters {
            prefix: &self.prefix,
            selection: &self.selection,
            days,
        }
    }
}

/// The whole archive, which is what a run with no filter flags asks for.
fn everything() -> Wanted {
    only(Selection::default())
}

/// The whole archive narrowed to one selection.
fn only(selection: Selection) -> Wanted {
    Wanted {
        prefix: KEY_PREFIX.to_string(),
        selection,
    }
}

/// What a test that is not about the checking asks for: an object bound no fixture reaches, and
/// unattested objects counted rather than refused, which is what a filesystem archive hands back.
fn permissive() -> Verification {
    Verification {
        max_object_bytes: NonZeroU64::new(1 << 20).expect("above zero"),
        insist: Insist::Nothing,
    }
}

/// What the operator's disk holds: the state file and the files.
#[derive(Default)]
struct Disk {
    state: Option<Cursor>,
    files: BTreeMap<String, Vec<u8>>,
    /// A directory where a staging file has to go.
    blocked: Option<String>,
}

impl Disk {
    fn state(&self) -> StateFile {
        match &self.state {
            None => StateFile::Absent,
            Some(cursor) => StateFile::Held {
                cursor: copied(cursor),
            },
        }
    }

    fn write(&mut self, path: &str, bytes: &[u8]) -> Result<(), String> {
        let staged = staged::staging(path)?;
        if self.blocked.as_ref() == Some(&staged) {
            return Err("is a directory".to_string());
        }
        self.files.insert(staged.clone(), bytes.to_vec());
        let whole = self.files.remove(&staged).expect("it was just staged");
        self.files.insert(path.to_string(), whole);
        Ok(())
    }

    fn cursor(&self, wanted: &Wanted) -> Cursor {
        let days = Days::default();
        Cursor::read(STATE, self.state(), &wanted.filters(&days), &permissive())
            .expect("the cursor reads")
    }
}

fn copied(cursor: &Cursor) -> Cursor {
    Cursor {
        prefix: cursor.prefix.clone(),
        selection: cursor.selection.clone(),
        insist: cursor.insist,
        max_object_bytes: cursor.max_object_bytes,
        from: cursor.from.clone(),
        after: cursor.after.clone(),
        unverified: cursor.unverified.clone(),
    }
}

/// One sync, with the keys it reported.
struct Synced {
    disk: Disk,
    landed: Vec<String>,
    report: Report,
}

impl Synced {
    fn landed_at(&self, key: &str) -> Option<&Vec<u8>> {
        self.disk.files.get(&format!("{INTO}/{key}"))
    }
}

/// A run that stopped, what it left behind, and the keys it had reported.
struct Halted {
    error: SyncError,
    disk: Disk,
    landed: Vec<String>,
}

/// Sync `server` under `wanted` onto `disk`, which a resuming test reuses.
fn sync_verifying(
    server: &Server,
    wanted: &Wanted,
    mut disk: Disk,
    verification: Verification,
) -> Result<Synced, Halted> {
    let days = Days::default();
    let mut landed = Vec::new();
    let cursor = match Cursor::read(STATE, disk.state(), &wanted.filters(&days), &verification) {
        Ok(cursor) => cursor,
        Err(error) => {
            return Err(Halted {
                error: SyncError::Cursor(error),
                disk,
                landed,
            })
        }
    };
    let archive = server.pulling();
    let mut run = Run::start(
        Asked {
            prefix: wanted.prefix.clone(),
            selection: wanted.selection.clone(),
            days,
            verification,
            into: INTO.to_string(),
        },
        cursor,
    );
    loop {
        assert!(run.report.can_count(1 << 20), "a test moves little");
        let stepped = match run.next() {
            Action::List { prefix, after } => run.listed(server.list(&archive, &prefix, &after)),
            Action::Download {
                key,
                max_object_bytes,
            } => run.downloaded(server.download(&archive, &key, max_object_bytes), true),
            Action::Write { path } => {
                let State::Writing { key, bytes, .. } = &run.state else {
                    panic!("a write is asked for in the midst of one");
                };
                let written = disk.write(&path, bytes);
                if written.is_ok() {
                    landed.push(key.clone());
                }
                run.written(written)
            }
            Action::Save => {
                disk.state = Some(copied(&run.cursor));
                run.saved(STATE, Ok(()))
            }
            Action::Stop { error } => Err(error),
            Action::Finish => {
                return Ok(Synced {
                    disk,
                    landed,
                    report: run.report,
                })
            }
        };
        if let Err(error) = stepped {
            return Err(Halted {
                error,
                disk,
                landed,
            });
        }
    }
}

fn sync_into(server: &Server, wanted: &Wanted, disk: Disk) -> Result<Synced, Halted> {
    sync_verifying(server, wanted, disk, permissive())
}

fn synced_under(server: &Server, verification: Verification) -> Synced {
    sync_verifying(server, &everything(), Disk::default(), verification)
        .unwrap_or_else(|halted| panic!("the sync failed: {}", halted.error.message()))
}

fn synced(server: &Server, wanted: &Wanted) -> Synced {
    sync_into(server, wanted, Disk::default())
        .unwrap_or_else(|halted| panic!("the sync failed: {}", halted.error.message()))
}

/// The keys a listing reports, page by page, with the report beside them.
fn walked(
    wanted: &Wanted,
    mut asked: impl FnMut(&str, &str) -> Result<Listing, PullError>,
) -> (Vec<String>, Report, Result<(), SyncError>) {
    let days = Days::default();
    let mut found = Vec::new();
    let mut report = Report::nothing();
    let mut pages = Pages::from(&days.start(""));
    while !pages.done {
        let page = match asked(&wanted.prefix, &pages.after) {
            Ok(page) => page,
            Err(error) => return (found, report, Err(SyncError::Pull(error))),
        };
        match pages.next(page) {
            Ok(Some(keys)) => {
                let (selected, past) = sync::list(&wanted.selection, &days, &keys, &mut report);
                found.extend(selected);
                if past {
                    break;
                }
            }
            Ok(None) => break,
            Err(error) => return (found, report, Err(error)),
        }
    }
    (found, report, Ok(()))
}

fn listed(server: &Server, wanted: &Wanted) -> (Vec<String>, Report) {
    let archive = server.pulling();
    let (found, report, outcome) =
        walked(wanted, |prefix, after| server.list(&archive, prefix, after));
    outcome.expect("the listing answers");
    (found, report)
}

#[test]
fn a_downloaded_object_is_the_archived_bytes_and_still_verifies() {
    let server = Server::with_objects(1, 100);
    let key = server.keys()[0].clone();
    let archived = server.stored.borrow()[&key].bytes.clone();

    let synced = synced(&server, &everything());

    let downloaded = synced.landed_at(&key).expect("the object landed");
    assert_eq!(*downloaded, archived);
    let attestation = Pair::signed(&test_key(), &archived).attestation();
    assert!(attestation.verifies(downloaded, false));
    let (header, data) = split(downloaded, 4096).expect("the downloaded bytes open");
    assert_eq!(header, b"{\"counter\":0}");
    assert_eq!(data, b"the data frame");
    assert_eq!(
        synced.report,
        Report {
            objects: 1,
            bytes: archived.len() as u64,
            passed: 0,
            unnameable: 0,
            // This server stores to an archive which discards the pair at ingest, so nothing it
            // serves can be checked by anybody. `cold_signed` is the attesting server's to answer.
            cold_signed: 0,
            leios_signed: 0,
            unattested: 1,
            rejected: Vec::new(),
        }
    );
}

/// The whole point of the two headers: an archive that answers them is one whose objects this tool
/// checks for itself, rather than taking the server's word for what it handed over.
#[test]
fn an_object_that_carries_its_key_and_signature_is_checked() {
    let server = Server::attesting(2, 100);

    let synced = synced(&server, &everything());

    assert_eq!(synced.report.cold_signed, 2);
    assert_eq!(synced.report.unattested, 0);
    assert_eq!(synced.report.rejected, Vec::new());
    for key in server.keys() {
        assert!(synced.landed_at(&key).is_some(), "{key} did not land");
    }
}

/// Bytes that do not stand under the signature beside them are not written at all. A reader
/// globbing the download directory cannot pick up an object nobody may trust, which is why the
/// check happens before the file does.
#[test]
fn an_object_whose_bytes_do_not_verify_is_not_written() {
    let server = Server::attesting(1, 100);
    let key = server.keys()[0].clone();
    server.tamper(&key);

    let synced = synced(&server, &everything());

    assert_eq!(synced.report.cold_signed, 0);
    assert_eq!(synced.report.objects, 0);
    assert!(
        synced.landed_at(&key).is_none(),
        "{key} must not be on disk"
    );
    assert_eq!(synced.report.rejected.len(), 1, "{:?}", synced.report);
    assert_eq!(synced.report.rejected[0].key, key);
    assert!(
        synced.report.rejected[0].reason.contains("signature"),
        "got: {}",
        synced.report.rejected[0].reason
    );
    // Reported, and not handed to the caller as landed: that list is what a reader will find.
    assert!(synced.landed.is_empty(), "got: {:?}", synced.landed);
    // And named in the cursor, which is what the next run still knows it by.
    assert!(synced.disk.cursor(&everything()).unverified.contains(&key));
}

/// The other half, and the one a signature check alone would pass: bytes a stranger sealed, filed
/// under a pool that never sent them. The key hashing to the pool in the object's own name is what
/// says whose it is.
#[test]
fn an_object_signed_by_another_pool_is_not_written() {
    let server = Server::attesting(1, 100);
    let key = server.keys()[0].clone();
    server.reseal_as(&key, &other_key());

    let synced = synced(&server, &everything());

    assert_eq!(synced.report.rejected.len(), 1, "{:?}", synced.report);
    assert!(
        synced.report.rejected[0].reason.contains("filed under"),
        "got: {}",
        synced.report.rejected[0].reason
    );
    assert!(
        synced.landed_at(&key).is_none(),
        "{key} must not be on disk"
    );
}

/// An archive that stores no metadata leaves every object unattested, and a run against one still
/// syncs: refusing by default would leave the tool unable to read the archive a single-host
/// deployment writes.
#[test]
fn an_object_with_nothing_to_check_it_by_lands_and_is_counted() {
    let server = Server::with_objects(1, 100);

    let synced = synced(&server, &everything());

    assert_eq!(synced.report.unattested, 1);
    assert_eq!(synced.report.cold_signed, 0);
    assert_eq!(synced.report.rejected, Vec::new());
    assert!(synced.landed_at(&server.keys()[0]).is_some());
}

/// And what `--require-attested` is for: the consumer that needs the guarantee says so, and then
/// unattested is a refusal like any other.
#[test]
fn require_attested_refuses_an_object_with_nothing_to_check_it_by() {
    let server = Server::with_objects(1, 100);

    let synced = synced_under(
        &server,
        Verification {
            insist: Insist::Attested,
            ..permissive()
        },
    );

    assert_eq!(synced.report.rejected.len(), 1, "{:?}", synced.report);
    assert!(
        synced.report.rejected[0]
            .reason
            .contains("no key and signature"),
        "got: {}",
        synced.report.rejected[0].reason
    );
    assert!(synced.landed_at(&server.keys()[0]).is_none());
}

/// A Leios key names no pool, so its object's filing is the server's word. Its bytes are not: the
/// signature is checked here like any other's, and counting it beside an object that carried no
/// signature at all would say the two were equally unchecked.
#[test]
fn a_leios_signed_object_is_counted_apart_from_one_carrying_no_signature() {
    let server = Server::attesting(2, 100);
    let leios = server.keys()[0].clone();
    server.leios_sign(&leios);

    let synced = synced(&server, &everything());

    assert_eq!(synced.report.cold_signed, 1, "{:?}", synced.report);
    assert_eq!(synced.report.leios_signed, 1, "{:?}", synced.report);
    assert_eq!(synced.report.unattested, 0, "{:?}", synced.report);
    assert_eq!(synced.report.rejected, Vec::new());
    assert!(synced.landed_at(&leios).is_some(), "{leios} did not land");
}

/// The flag a consumer wants once pools hold no cold key: the bytes are proven either way, so both
/// land and only what carries no signature is refused.
#[test]
fn require_attested_takes_a_leios_signed_object() {
    let server = Server::attesting(2, 100);
    let leios = server.keys()[0].clone();
    server.leios_sign(&leios);

    let synced = synced_under(
        &server,
        Verification {
            insist: Insist::Attested,
            ..permissive()
        },
    );

    assert_eq!(synced.report.rejected, Vec::new(), "{:?}", synced.report);
    assert_eq!(synced.report.leios_signed, 1);
    assert!(synced.landed_at(&leios).is_some(), "{leios} did not land");
}

/// The strict flag, which keeps only what stays checkable from the object alone. The refusal says
/// the signature stood, so it does not read as bad bytes.
#[test]
fn require_cold_signed_refuses_a_leios_signed_object() {
    let server = Server::attesting(2, 100);
    let leios = server.keys()[0].clone();
    server.leios_sign(&leios);

    let synced = synced_under(
        &server,
        Verification {
            insist: Insist::ColdSigned,
            ..permissive()
        },
    );

    assert_eq!(synced.report.rejected.len(), 1, "{:?}", synced.report);
    assert_eq!(synced.report.rejected[0].key, leios);
    assert!(
        synced.report.rejected[0]
            .reason
            .contains("signature verified"),
        "got: {}",
        synced.report.rejected[0].reason
    );
    assert!(
        synced.landed_at(&leios).is_none(),
        "{leios} must not be on disk"
    );
}

/// Checking an object means holding it, so the run states what it will hold. Over that, the object
/// is reported and the rest of the archive still syncs.
#[test]
fn an_object_over_the_bound_is_reported_and_the_sync_goes_on() {
    let server = Server::attesting(2, 100);

    let synced = synced_under(
        &server,
        Verification {
            max_object_bytes: NonZeroU64::new(1).expect("above zero"),
            ..permissive()
        },
    );

    assert_eq!(synced.report.rejected.len(), 2, "{:?}", synced.report);
    assert!(
        synced.report.rejected[0].reason.contains("byte limit"),
        "got: {}",
        synced.report.rejected[0].reason
    );
}

/// Objects land under the key they are filed as, folders and all, which is what a reader globbing
/// `**/*.jsonl.zst` over the download directory needs.
#[test]
fn objects_land_under_the_keys_they_are_filed_as() {
    let server = Server::with_objects(3, 100);

    let synced = synced(&server, &everything());

    assert_eq!(synced.landed, server.keys());
    for key in server.keys() {
        assert!(synced.landed_at(&key).is_some(), "{key} did not land");
    }
}

/// A page bound is the server's, and the walk has to follow it: three objects with one key to a
/// page is three pages plus the empty one after them.
#[test]
fn a_sync_follows_the_listing_past_the_page_bound() {
    let server = Server::with_objects(3, 1);

    let synced = synced(&server, &everything());

    assert_eq!(synced.landed, server.keys());
}

#[test]
fn a_listing_that_does_not_advance_past_the_cursor_is_refused() {
    let key = ObjectName::stamped(
        test_now(),
        0,
        pool_of(&test_key()),
        AgentId::parse("relay-0").expect("a slug"),
        Kind::Metrics,
    )
    .to_key();

    let (found, _, outcome) = walked(&everything(), |_, _| {
        Ok(Listing {
            keys: vec![key.clone()],
            truncated: true,
        })
    });
    let error = outcome.expect_err("a listing that repeats its last page is refused");

    assert_eq!(found, vec![key.clone()], "the first page is still a page");
    assert!(
        matches!(&error, SyncError::Stuck { after } if *after == key),
        "got: {}",
        error.message()
    );
}

#[test]
fn an_empty_page_the_server_calls_truncated_is_not_the_end() {
    let (_, _, outcome) = walked(&everything(), |_, _| {
        Ok(Listing {
            keys: Vec::new(),
            truncated: true,
        })
    });
    let error = outcome.expect_err("an empty truncated page is refused");

    assert!(
        matches!(&error, SyncError::Stuck { after } if after.is_empty()),
        "got: {}",
        error.message()
    );
}

/// Resuming is what the cursor is for: the objects a previous run wrote are not listed again, so
/// deleting them cannot bring them back.
#[test]
fn an_interrupted_sync_resumes_after_the_object_it_last_wrote() {
    let server = Server::with_objects(3, 1);
    let keys = server.keys();
    // A directory where the third object's staging file has to go, so the run stops with two
    // written and the cursor naming the second. A stopped run rather than a killed process,
    // because what resuming reads is the cursor either way.
    let disk = Disk {
        blocked: Some(format!("{INTO}/{}.staged", keys[2])),
        ..Disk::default()
    };

    let Err(Halted {
        error,
        mut disk,
        landed,
    }) = sync_into(&server, &everything(), disk)
    else {
        panic!("a download that cannot be written stops the sync");
    };

    assert_eq!(
        landed,
        keys[..2].to_vec(),
        "stopped early: {}",
        error.message()
    );
    assert_eq!(disk.cursor(&everything()).after, keys[1]);
    // Unblocked, and the two already written deleted: a resumed run must not fetch them, so their
    // absence afterwards is what says it resumed.
    disk.blocked = None;
    for key in &keys[..2] {
        disk.files
            .remove(&format!("{INTO}/{key}"))
            .expect("the object was there");
    }

    let resumed = sync_into(&server, &everything(), disk)
        .unwrap_or_else(|halted| panic!("{}", halted.error.message()));

    assert_eq!(resumed.landed, keys[2..].to_vec());
    for key in &keys[..2] {
        assert!(
            resumed.landed_at(key).is_none(),
            "{key} was downloaded again instead of resumed past"
        );
    }
}

/// A download that stops must leave nothing that reads as the object, and nothing beside it either.
#[test]
fn a_staged_file_does_not_survive_a_download_that_failed() {
    let server = Server::with_objects(1, 100);
    let key = server.keys()[0].clone();
    // Listed and unreadable, because the failure has to be in the object and not in the walk: a
    // deleted object is not listed at all.
    server.unreadable(&key);

    let Err(halted) = sync_into(&server, &everything(), Disk::default()) else {
        panic!("an unreadable object stops the sync");
    };

    assert!(
        matches!(&halted.error, SyncError::Pull(pull) if pull.message().contains("503")),
        "got: {}",
        halted.error.message()
    );
    let staged = format!("{INTO}/{key}.staged");
    assert!(
        !halted.disk.files.contains_key(&staged),
        "{staged} was left behind"
    );
    assert!(halted.disk.files.is_empty());
}

/// The prefix goes upstream, so one day's objects are listed without the server reading a key
/// beyond it.
#[test]
fn a_prefix_selects_a_day_without_downloading() {
    let server = Server::with_objects(3, 100);
    let keys = server.keys();
    let day = keys[1]
        .rsplit_once('/')
        .map(|(folder, _)| format!("{folder}/"))
        .expect("a key names its day folder");

    let (listed, report) = listed(
        &server,
        &Wanted {
            prefix: day,
            selection: Selection::default(),
        },
    );

    assert_eq!(listed, vec![keys[1].clone()]);
    assert_eq!(report.objects, 1);
}

/// The pool, the agent and the kind sit after the id in the key, so no prefix selects them. Read
/// off the key, they still cost no download.
#[test]
fn the_pool_the_agent_and_the_kind_each_select_off_the_key() {
    let server = Server::with_objects(3, 100);
    let keys = server.keys();
    let selections = [
        (
            Selection {
                pool: Some(pool_of(&test_key())),
                ..Selection::default()
            },
            vec![keys[0].clone(), keys[2].clone()],
        ),
        (
            Selection {
                pool: Some(pool_of(&other_key())),
                ..Selection::default()
            },
            vec![keys[1].clone()],
        ),
        (
            Selection {
                agent: Some(AgentId::parse("relay-1").expect("a slug")),
                ..Selection::default()
            },
            vec![keys[1].clone()],
        ),
        (
            Selection {
                kind: Some(Kind::Logs),
                ..Selection::default()
            },
            vec![keys[1].clone()],
        ),
    ];

    for (selection, expected) in selections {
        let named = selection.describe();
        let (listed, report) = listed(&server, &only(selection));

        assert_eq!(listed, expected, "{named}");
        assert_eq!(report.passed, keys.len() as u64 - expected.len() as u64);
    }
}

/// A filtered sync downloads what it selected and nothing else, and the cursor still passes the
/// keys it left out: they were listed, and re-listing them would download nothing.
#[test]
fn a_filtered_sync_downloads_only_what_it_selected() {
    let server = Server::with_objects(3, 100);
    let keys = server.keys();
    let wanted = only(Selection {
        kind: Some(Kind::Logs),
        ..Selection::default()
    });

    let synced = synced(&server, &wanted);

    assert_eq!(synced.landed, vec![keys[1].clone()]);
    assert_eq!(synced.report.passed, 2);
    assert_eq!(synced.disk.cursor(&wanted).after, keys[2]);
}

/// What was refused, and what was counted before, stays in the report whatever is passed over
/// behind it.
#[test]
fn passing_keys_over_leaves_the_rest_of_the_report_alone() {
    let server = Server::attesting(4, 100);
    let keys = server.keys();
    server.tamper(&keys[0]);
    server.seed_foreign("v1/zzz/unnameable", b"foreign");

    let synced = synced(
        &server,
        &only(Selection {
            kind: Some(Kind::Metrics),
            ..Selection::default()
        }),
    );

    assert_eq!(synced.landed, vec![keys[2].clone()]);
    let report = &synced.report;
    assert_eq!(
        (report.objects, report.passed, report.unnameable),
        (1, 2, 1)
    );
    assert_eq!(
        (report.cold_signed, report.leios_signed, report.unattested),
        (1, 0, 0)
    );
    assert_eq!(report.bytes as usize, synced.landed_at(&keys[2]).expect("landed").len());
    assert_eq!(report.rejected.len(), 1);
    assert_eq!(report.rejected[0].key, keys[0]);
    assert!(summary::outcome(report).is_err());
}

/// The cursor passed keys the selection left out, so it only means anything against that
/// selection: read under another one it would skip objects it never downloaded.
#[test]
fn a_cursor_taken_under_other_filters_is_refused() {
    let server = Server::with_objects(3, 100);
    let disk = synced(
        &server,
        &only(Selection {
            kind: Some(Kind::Logs),
            ..Selection::default()
        }),
    )
    .disk;

    let Err(halted) = sync_into(&server, &everything(), disk) else {
        panic!("another selection is another cursor");
    };

    assert!(
        halted.landed.is_empty(),
        "downloaded before refusing: {:?}",
        halted.landed
    );
    assert!(
        matches!(&halted.error, SyncError::Cursor(cursor) if cursor.message().contains("kind logs")),
        "got: {}",
        halted.error.message()
    );
}

/// An object this build cannot name is passed over and counted, not taken: the download route
/// refuses such a key, so a sync that asked for it would stall at it every run. The count is what
/// keeps the pass silent about nothing.
#[test]
fn an_object_this_build_cannot_name_is_counted_and_left() {
    let server = Server::with_objects(1, 100);
    let foreign = "v1/2026-08-27/something-else.jsonl.zst";
    server.seed_foreign(foreign, b"not a submission");

    let wanted = everything();
    let synced = synced(&server, &wanted);

    assert_eq!(synced.landed, server.keys());
    assert_eq!(synced.report.unnameable, 1);
    assert!(synced.landed_at(foreign).is_none());
    // Past it, so the next run does not stop there either.
    assert_eq!(synced.disk.cursor(&wanted).after, foreign);
}

/// The credential is what the routes are behind, and a wrong one has to surface as the refusal it
/// is rather than as an empty sync.
#[test]
fn a_wrong_password_is_reported_not_synced() {
    let server = Server::with_objects(1, 100);
    let archive = Archive::new(URL, "developer", "not-the-password");

    let (_, _, outcome) = walked(&everything(), |prefix, after| {
        server.list(&archive, prefix, after)
    });
    let error = outcome.expect_err("a wrong password is refused");

    assert!(
        matches!(&error, SyncError::Pull(pull) if pull.message().contains("401")),
        "got: {}",
        error.message()
    );
}

/// The keys are the server's, so a path that would leave the download directory is refused rather
/// than written.
#[test]
fn a_key_that_is_not_a_relative_path_names_no_file() {
    let into = "/tmp/downloads";
    for key in ["/etc/passwd", "../escaped", "v1/../../escaped", ""] {
        assert_eq!(sync::destination(into, key), None, "{key:?}");
    }
    assert_eq!(
        sync::destination(into, "v1/2026-08-27/object.jsonl.zst"),
        Some("/tmp/downloads/v1/2026-08-27/object.jsonl.zst".to_string())
    );
}

/// A password file that is empty, or holds only the line end an editor leaves, is named.
#[test]
fn an_empty_password_file_is_refused_by_name() {
    for content in ["", "\n", "\r\n"] {
        let error = summary::password("/run/password", content).expect_err("there is no password");
        assert_eq!(
            error.message(),
            "the password file /run/password is empty",
            "{content:?}"
        );
    }
    assert_eq!(
        summary::password("/run/password", "the-shared-account\n").expect("a password"),
        "the-shared-account"
    );
}

/// The run's last words: the refused keys first, then the counts, then how to read what landed.
#[test]
fn a_run_says_what_it_moved() {
    let server = Server::attesting(3, 100);
    let keys = server.keys();
    server.tamper(&keys[2]);
    let synced = synced(&server, &everything());
    let bytes = synced.report.bytes;
    assert_eq!(
        summary::lines(&synced.report, KEY_PREFIX, Some(INTO), Some(Kind::Logs)),
        vec![
            format!(
                "not written: {} the signature does not stand over the bytes as downloaded",
                keys[2]
            ),
            "3 keys under v1/; 3 selected, 0 outside the selection, 0 this build cannot name"
                .to_string(),
            format!(
                "2 objects into {INTO}, {bytes} bytes; 2 cold-signed, 0 Leios-signed, \
                 0 unattested, 1 not written"
            ),
            format!(
                "read them with: duckdb -c \"select * from {}\"",
                recipe::read(INTO, Some(Kind::Logs))
            ),
        ]
    );
    let error = summary::outcome(&synced.report).expect_err("one object was refused");
    assert_eq!(
        error.message(),
        "1 object(s) were not written, each named above"
    );
    assert_eq!(summary::outcome(&Report::nothing()), Ok(()));
    assert_eq!(
        summary::banner(URL),
        "metsuke-fetch 0.1.0 against http://archive.test:8080"
    );
}

/// The download directory is the operator's, and it goes inside a SQL string literal: an unescaped
/// quote in it would end that literal.
#[test]
fn a_quote_in_the_download_directory_is_doubled() {
    let read = recipe::read("/srv/it's objects", None);
    assert!(read.contains("it''s objects"), "got: {read}");
}

/// Each way a download can come to nothing short of a refusal.
#[test]
fn a_download_without_its_length_or_short_of_it_is_no_object() {
    let max = NonZeroU64::new(10).expect("above zero");
    let error = take_length("v1/k", None, max).expect_err("no length");
    assert_eq!(error.message(), "the download of v1/k states no length");
    let error = take_length("v1/k", Some(11), max).expect_err("too long");
    assert_eq!(
        error.message(),
        "v1/k declares 11 bytes, over the 10 byte limit this run will hold to check"
    );
    assert_eq!(take_length("v1/k", Some(10), max).expect("in bound"), (10, 10));
    let error = whole("v1/k", 4, vec![1, 2, 3], None).expect_err("cut short");
    assert_eq!(
        error.message(),
        "the download of v1/k ended after 3 of the 4 bytes it declared"
    );
}
