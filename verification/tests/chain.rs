//! Registrations on the chain, how they are read, and what the server keeps beside its archive.

use ciborium::Value;
use ed25519_dalek::{Signer, SigningKey};
use metsuke::count::{NonZeroU32, NonZeroU64};
use metsuke::hex;
use metsuke::hex::HexError;
use metsuke::key::{Kind, ObjectName};
use metsuke::server::archive::ArchiveError;
use metsuke::server::calidus::{
    current, resolve, CalidusKeys, Directory, DirectoryError, Resolution,
};
use metsuke::server::cip151::{judge, verify, Registration, RegistrationError};
use metsuke::server::config::{AbsolutePath, CalidusConfig};
use metsuke::server::counters::{last_counter, reserve, to_row, CounterError, Reservation};
use metsuke::server::db;
use metsuke::server::db::{Connection, DbError, Reached};
use metsuke::server::dbsync::{
    depth_of, read_registrations, security_parameter, DbSync, GenesisError,
};
use metsuke::server::index::{asked, listing, pattern, IndexError};
use metsuke::server::psql::{options_of, PsqlError, Query, Ran, Rows};
use metsuke::server::rebuild::{EmptyArchive, Rebuild, RebuildError};
use metsuke::wire::agent::AgentId;
use metsuke::wire::moment::Moment;
use metsuke::wire::pool::PoolId;
use metsuke::wire::signing::VerifyingKey;

fn cold(byte: u8) -> SigningKey {
    SigningKey::from_bytes(&[byte; 32])
}

fn pool(byte: u8) -> PoolId {
    let key = VerifyingKey::from_bytes(&cold(byte).verifying_key().to_bytes()).expect("a key");
    PoolId::from_cold_key(&key)
}

fn seconds(at: i128) -> Moment {
    Moment::new(at * 1_000_000_000, String::new()).expect("on the calendar")
}

fn integer(n: i64) -> Value {
    Value::Integer(n.into())
}

fn encoded(value: &Value) -> Vec<u8> {
    let mut bytes = Vec::new();
    ciborium::into_writer(value, &mut bytes).expect("a value encodes");
    bytes
}

/// What a row is made of, so a test can bend one part of it.
struct Row {
    signer: SigningKey,
    scope: PoolId,
    version: i64,
    nonce: i64,
    key: Vec<u8>,
}

impl Row {
    fn of(byte: u8, nonce: i64, key: Vec<u8>) -> Row {
        Row {
            signer: cold(byte),
            scope: pool(byte),
            version: 2,
            nonce,
            key,
        }
    }

    fn payload(&self) -> Value {
        Value::Map(vec![
            (
                integer(1),
                Value::Array(vec![
                    integer(1),
                    Value::Bytes(self.scope.as_hash().to_vec()),
                ]),
            ),
            (integer(4), integer(self.nonce)),
            (integer(7), Value::Bytes(self.key.clone())),
        ])
    }

    fn witness(&self, signed: &[u8]) -> Value {
        let protected = vec![0xa1, 0x01, 0x27];
        let message = encoded(&Value::Array(vec![
            Value::Text("Signature1".to_string()),
            Value::Bytes(protected.clone()),
            Value::Bytes(Vec::new()),
            Value::Bytes(signed.to_vec()),
        ]));
        Value::Map(vec![
            (
                integer(1),
                Value::Map(vec![(
                    integer(-2),
                    Value::Bytes(self.signer.verifying_key().to_bytes().to_vec()),
                )]),
            ),
            (
                integer(2),
                Value::Array(vec![
                    Value::Bytes(protected),
                    Value::Map(Vec::new()),
                    Value::Bytes(signed.to_vec()),
                    Value::Bytes(self.signer.sign(&message).to_bytes().to_vec()),
                ]),
            ),
        ])
    }

    /// The bytes a chain carries.
    fn blob(&self) -> Vec<u8> {
        let hash: [u8; 32] = <blake2::Blake2b<blake2::digest::consts::U32> as blake2::Digest>::digest(
            encoded(&self.payload()),
        )
        .into();
        encoded(&Value::Map(vec![(
            integer(867),
            Value::Map(vec![
                (integer(0), integer(self.version)),
                (integer(1), self.payload()),
                (integer(2), Value::Array(vec![self.witness(&hash)])),
            ]),
        )]))
    }

    fn registration(&self) -> Registration {
        verify(self.scope, &self.blob()).expect("a registration")
    }
}

/// The public half of a key, as an operator registers it.
fn calidus(byte: u8) -> Vec<u8> {
    cold(byte).verifying_key().to_bytes().to_vec()
}

/// No point of the curve has this encoding.
fn off_curve() -> Vec<u8> {
    let mut bytes = vec![0u8; 32];
    bytes[0] = 2;
    bytes
}

#[test]
fn a_witnessed_registration_names_its_key() {
    let row = Row::of(7, 41, calidus(21));
    let found = verify(pool(7), &row.blob()).expect("its own pool's row");
    assert_eq!(found.nonce(), 41);
    assert_eq!(found.key().to_vec(), calidus(21));
}

#[test]
fn each_row_that_registers_nothing_says_why() {
    let refusal = |row: &Row| verify(pool(7), &row.blob()).expect_err("no registration");

    let error = verify(pool(7), &[0xff]).expect_err("a lone break");
    assert!(matches!(&error, RegistrationError::NotCbor(_)));
    assert!(error.message().starts_with("not CBOR: "));
    assert!(matches!(
        verify(pool(7), &encoded(&Value::Map(vec![(integer(868), integer(0))]))),
        Err(RegistrationError::NotARegistration)
    ));
    assert!(matches!(
        refusal(&Row {
            version: 1,
            ..Row::of(7, 1, calidus(21))
        }),
        RegistrationError::WrongVersion
    ));
    assert!(matches!(
        refusal(&Row::of(7, 1, vec![0u8; 31])),
        RegistrationError::MalformedPayload
    ));
    assert!(matches!(
        refusal(&Row::of(7, -1, calidus(21))),
        RegistrationError::MalformedPayload
    ));
    assert!(matches!(
        refusal(&Row::of(9, 1, calidus(21))),
        RegistrationError::ScopesAnotherPool
    ));
    // A stranger's signature over a payload that scopes the pool.
    assert!(matches!(
        refusal(&Row {
            signer: cold(9),
            ..Row::of(7, 1, calidus(21))
        }),
        RegistrationError::Unwitnessed
    ));
    for error in [
        RegistrationError::NotARegistration,
        RegistrationError::WrongVersion,
        RegistrationError::MalformedPayload,
        RegistrationError::ScopesAnotherPool,
        RegistrationError::Unwitnessed,
    ] {
        assert!(!error.message().is_empty());
    }
}

/// The first thing that is wrong decides.
#[test]
fn a_registration_is_judged_by_its_parts() {
    let says = || Some((pool(7).as_hash().to_vec(), 3, [5u8; 32]));
    assert_eq!(
        judge(pool(7), Some(2), says(), true).expect("a registration"),
        (3, [5u8; 32])
    );
    assert!(matches!(
        judge(pool(7), None, None, false),
        Err(RegistrationError::WrongVersion)
    ));
    assert!(matches!(
        judge(pool(7), Some(2), None, true),
        Err(RegistrationError::MalformedPayload)
    ));
    assert!(matches!(
        judge(pool(9), Some(2), says(), false),
        Err(RegistrationError::ScopesAnotherPool)
    ));
    assert!(matches!(
        judge(pool(7), Some(2), says(), false),
        Err(RegistrationError::Unwitnessed)
    ));
}

#[test]
fn the_highest_nonce_names_the_key() {
    let first = Row::of(7, 1, calidus(21));
    let second = Row::of(7, 2, calidus(22));
    let key = |byte| {
        let mut bytes = [0u8; 32];
        bytes.copy_from_slice(&calidus(byte));
        Resolution::Key(bytes)
    };
    assert_eq!(
        resolve(pool(7), &[first.blob(), second.blob()]),
        key(22)
    );
    // In any order, and however often the older one is posted again.
    assert_eq!(
        resolve(pool(7), &[second.blob(), first.blob(), first.blob()]),
        key(22)
    );
    assert_eq!(
        current(&[second.registration(), first.registration()]),
        key(22)
    );
    // A stranger's row changes nothing.
    let stranger = Row {
        signer: cold(9),
        ..Row::of(7, 9, calidus(23))
    };
    assert_eq!(resolve(pool(7), &[first.blob(), stranger.blob()]), key(21));
}

#[test]
fn each_resolution_that_is_no_key_is_told_apart() {
    assert_eq!(resolve(pool(7), &[]), Resolution::NeverRegistered);
    let held = Row::of(7, 1, calidus(21));
    assert_eq!(
        resolve(pool(7), &[held.blob(), Row::of(7, 2, vec![0u8; 32]).blob()]),
        Resolution::Revoked
    );
    let contested = resolve(pool(7), &[held.blob(), Row::of(7, 1, calidus(22)).blob()]);
    assert_eq!(contested, Resolution::Contested { nonce: 1 });
    assert_eq!(contested.message(), "two Calidus keys share nonce 1");
    let bent = resolve(pool(7), &[Row::of(7, 4, off_curve()).blob()]);
    assert_eq!(bent, Resolution::NotAKey { nonce: 4 });
    assert_eq!(
        bent.message(),
        "the key registered at nonce 4 is not on the curve"
    );
    assert_eq!(
        Resolution::Revoked.message(),
        "the Calidus key was revoked"
    );
}

/// A directory that counts how often it is asked.
struct Counting<'a> {
    asked: &'a std::cell::Cell<u32>,
    rows: Vec<Vec<u8>>,
    up: &'a std::cell::Cell<bool>,
}

impl Directory for Counting<'_> {
    fn registrations(&self, pool_id: PoolId) -> Result<Vec<Vec<u8>>, DirectoryError> {
        self.asked.set(self.asked.get() + 1);
        match self.up.get() {
            true => Ok(self.rows.clone()),
            false => Err(DirectoryError::Unavailable {
                pool_id,
                reason: "down".to_string(),
            }),
        }
    }
}

/// A directory that holds one pool's rows and remembers which pools it was asked for.
struct Holding<'a> {
    pool_id: PoolId,
    rows: Vec<Vec<u8>>,
    asked: &'a std::cell::RefCell<Vec<PoolId>>,
}

impl Directory for Holding<'_> {
    fn registrations(&self, pool_id: PoolId) -> Result<Vec<Vec<u8>>, DirectoryError> {
        self.asked.borrow_mut().push(pool_id);
        match pool_id == self.pool_id {
            true => Ok(self.rows.clone()),
            false => Ok(Vec::new()),
        }
    }
}

#[test]
fn the_directory_is_asked_for_the_pool_in_question() {
    let asked = std::cell::RefCell::new(Vec::new());
    let mut keys = CalidusKeys::new(
        Holding {
            pool_id: pool(7),
            rows: vec![Row::of(7, 1, vec![0u8; 32]).blob()],
            asked: &asked,
        },
        NonZeroU32::new(60).expect("above zero"),
    );
    assert!(matches!(
        keys.key_for(pool(9), &seconds(100)),
        Ok(Resolution::NeverRegistered)
    ));
    assert!(matches!(
        keys.key_for(pool(7), &seconds(100)),
        Ok(Resolution::Revoked)
    ));
    assert_eq!(*asked.borrow(), vec![pool(9), pool(7)]);
}

#[test]
fn an_answer_is_reused_until_it_is_too_old() {
    let asked = std::cell::Cell::new(0);
    let up = std::cell::Cell::new(true);
    let mut keys = CalidusKeys::new(
        Counting {
            asked: &asked,
            rows: vec![Row::of(7, 1, vec![0u8; 32]).blob()],
            up: &up,
        },
        NonZeroU32::new(60).expect("above zero"),
    );
    assert!(keys.cached(pool(7), &seconds(100)).is_none());
    assert!(matches!(
        keys.key_for(pool(7), &seconds(100)),
        Ok(Resolution::Revoked)
    ));
    assert!(keys.key_for(pool(7), &seconds(159)).is_ok());
    assert_eq!(asked.get(), 1);
    up.set(false);
    let error = keys
        .key_for(pool(7), &seconds(160))
        .expect_err("asked again, and it is down");
    assert_eq!(
        error.message(),
        format!(
            "cannot resolve pool {}'s Calidus registrations: down",
            pool(7).to_bech32()
        )
    );
    // What was known still answers for the instants it answers for.
    assert_eq!(
        keys.cached(pool(7), &seconds(120)),
        Some(Resolution::Revoked)
    );
    assert_eq!(
        keys.note(pool(9), &seconds(160), &[]),
        Resolution::NeverRegistered
    );
}

fn config() -> CalidusConfig {
    let path = |text: &str| AbsolutePath::new(text.to_string()).expect("absolute");
    CalidusConfig {
        psql_path: path("/bin/psql"),
        socket_dir: path("/run/postgresql"),
        dbname: "cexplorer".to_string(),
        role: "metsuke".to_string(),
        query_timeout_secs: NonZeroU64::new(5).expect("above zero"),
        password_file: path("/run/pgpass"),
    }
}

#[test]
fn a_query_reaches_psql_as_the_config_says() {
    let chain = DbSync::new(config(), NonZeroU32::new(2160).expect("above zero"));
    let variables = chain.variables(pool(7));
    let scope = format!("0x{}", hex::encode(pool(7).as_hash()));
    assert_eq!(
        variables,
        vec![("scope", scope.clone()), ("k", "2160".to_string())]
    );
    let query = chain.query(&variables, "select 1");
    assert_eq!(query.text, "select 1");
    let command = query.command();
    assert_eq!(
        command.environment,
        vec![
            (
                "PGOPTIONS".to_string(),
                "-c statement_timeout=5s".to_string()
            ),
            ("PGPASSFILE".to_string(), "/run/pgpass".to_string()),
        ]
    );
    assert_eq!(
        command.arguments,
        vec![
            "--csv",
            "--no-psqlrc",
            "--quiet",
            "--host",
            "/run/postgresql",
            "--dbname",
            "cexplorer",
            "--username",
            "metsuke",
            "--tuples-only",
            "--set",
            &format!("scope={scope}"),
            "--set",
            "k=2160",
            "--file",
            "-",
        ]
    );
    assert_eq!(options_of(7), "-c statement_timeout=7s");
}

fn ended(success: bool, unwritten: Option<&str>, stdout: &[u8]) -> Ran {
    Ran::Ended {
        success,
        status: "exit status: 2".to_string(),
        stderr: "FATAL: no\n".to_string(),
        unwritten: unwritten.map(str::to_string),
        stdout: stdout.to_vec(),
    }
}

#[test]
fn what_psql_says_of_its_own_failure_comes_first() {
    let query = Query {
        psql_path: "psql",
        socket_dir: "/run",
        dbname: "db",
        role: "me",
        query_timeout_secs: 1,
        password_file: None,
        variables: &[],
        rows: Rows::WithHeader,
        text: "select 1",
    };
    assert_eq!(query.command().environment.len(), 1);
    assert!(!query
        .command()
        .arguments
        .contains(&"--tuples-only".to_string()));
    assert_eq!(
        query.outcome(ended(true, None, b"00\n")).expect("an answer"),
        "00\n"
    );
    let error = query
        .outcome(ended(false, Some("broken pipe"), b""))
        .expect_err("it failed");
    assert_eq!(error.message(), "psql exited exit status: 2: FATAL: no");
    let error = query
        .outcome(ended(true, Some("broken pipe"), b""))
        .expect_err("the script did not reach it");
    assert_eq!(error.message(), "cannot run psql: broken pipe");
    let error = query
        .outcome(ended(true, None, &[0xff]))
        .expect_err("not text");
    assert!(matches!(error, PsqlError::NotUtf8 { .. }));
    assert!(error.message().contains("invalid utf-8"));
    let error = query
        .outcome(Ran::NotRun {
            error: "no such file".to_string(),
        })
        .expect_err("not run");
    assert!(matches!(error, PsqlError::CannotRun { .. }));
}

#[test]
fn rows_are_hex_lines() {
    assert_eq!(
        read_registrations("00ff\n\n  a1\r\n").expect("hex"),
        vec![vec![0x00, 0xff], vec![0xa1]]
    );
    assert_eq!(read_registrations("00\nzz\n"), Err(HexError::NotHex));
    assert_eq!(
        DbSync::registrations(pool(7), Ok("a1\n".to_string())).expect("one row"),
        vec![vec![0xa1]]
    );
    let error = DbSync::registrations(pool(7), Ok("zz".to_string())).expect_err("not hex");
    assert!(error
        .message()
        .contains("psql printed a row that is not hex: "));
    assert!(DbSync::registrations(
        pool(7),
        Err(PsqlError::CannotRun {
            psql: "psql".to_string(),
            source: "gone".to_string(),
        })
    )
    .is_err());
}

#[test]
fn the_security_parameter_is_a_block_count() {
    let read = |text: &str| security_parameter("/g.json", Ok(text.to_string()));
    assert_eq!(
        read("{\"securityParam\": 2160}").expect("a count").get(),
        2160
    );
    let error = read("{").expect_err("not JSON");
    assert!(matches!(error, GenesisError::NotJson { .. }));
    assert!(error
        .message()
        .starts_with("the Shelley genesis /g.json does not parse: "));
    assert!(matches!(
        read("{\"k\": 1}"),
        Err(GenesisError::NoSecurityParameter { .. })
    ));
    for text in ["0", "-1", "4294967296", "\"many\"", "1.5"] {
        let error = read(&format!("{{\"securityParam\": {text}}}")).expect_err("no count");
        assert_eq!(
            error.message(),
            format!("the Shelley genesis /g.json has securityParam {text}, which is no block count")
        );
    }
    let error =
        security_parameter("/g.json", Err("gone".to_string())).expect_err("not read");
    assert_eq!(
        error.message(),
        "cannot read the Shelley genesis /g.json: gone"
    );
    assert_eq!(
        depth_of("/g.json", Ok(Some((Some(7), "7".to_string()))))
            .expect("a count")
            .get(),
        7
    );
}

#[test]
fn a_connection_names_the_step_that_failed() {
    let connection = Connection {
        socket_dir: "/run",
        dbname: "db",
        role: "me",
        query_timeout_secs: 3,
        password_file: Some("/run/pw"),
    };
    assert_eq!(connection.options(), "-c statement_timeout=3s");
    assert_eq!(Connection::password("secret\r\n"), "secret");
    let said = |reached: Reached<u8>| {
        connection
            .answered(reached)
            .expect_err("a step failed")
            .message()
    };
    assert_eq!(
        said(Reached::NoPassword("gone".to_string())),
        "cannot read the password file /run/pw: gone"
    );
    assert_eq!(
        said(Reached::NoConnection("gone".to_string())),
        "cannot reach db on /run: gone"
    );
    assert_eq!(
        said(Reached::NoAnswer("no".to_string())),
        "db refused the query: no"
    );
    assert!(matches!(connection.answered(Reached::Answered(4)), Ok(4)));
    let error = db::column("bytes", "wrong type".to_string());
    assert!(matches!(error, DbError::Column { .. }));
    assert_eq!(
        error.message(),
        "no bytes of the type the query names: wrong type"
    );
}

fn key(index: u64) -> String {
    ObjectName::stamped(
        1_755_000_000 + index,
        0,
        pool(7),
        AgentId::parse("relay-1").expect("a slug"),
        Kind::Logs,
    )
    .to_key()
}

#[test]
fn a_full_page_of_rows_is_told_from_a_cut_off_one() {
    let two = NonZeroU32::new(2).expect("above zero");
    assert_eq!(asked(two), 3);
    assert_eq!(pattern("v1/2025"), "v1/2025*");
    let keys: Vec<String> = (0..3).map(key).collect();
    let found = listing(keys.clone(), two).expect("each row is a key");
    assert!(found.truncated);
    assert_eq!(
        found
            .objects
            .iter()
            .map(ObjectName::to_key)
            .collect::<Vec<_>>(),
        keys[..2].to_vec()
    );
    assert!(!listing(keys[..2].to_vec(), two).expect("a page").truncated);
    let error = listing(vec!["nope".to_string()], two).expect_err("no key");
    assert!(error
        .message()
        .starts_with("the index holds a row that is not an object key: "));
    assert_eq!(
        IndexError::Sqlite("locked".to_string()).message(),
        "sqlite: locked"
    );
    assert_eq!(IndexError::Migrate("old".to_string()).message(), "old");
}

#[test]
fn a_counter_only_advances() {
    assert_eq!(reserve(None, 5), Reservation::Reserved { row: 5 });
    assert_eq!(reserve(Some(5), 5), Reservation::Replayed { last: 5 });
    assert_eq!(reserve(Some(5), 4), Reservation::Replayed { last: 5 });
    assert_eq!(reserve(Some(5), 6), Reservation::Reserved { row: 6 });
    assert_eq!(to_row(u64::MAX), -1);
    assert_eq!(last_counter(-1), u64::MAX);
    assert_eq!(last_counter(to_row(1 << 63)), 1 << 63);
    // Past the range of a row a counter only fails to advance.
    assert_eq!(
        reserve(Some(5), u64::MAX),
        Reservation::Replayed { last: 5 }
    );
    assert_eq!(
        CounterError::Sqlite("busy".to_string()).message(),
        "sqlite: busy"
    );
    assert_eq!(CounterError::Migrate("old".to_string()).message(), "old");
}

#[test]
fn a_rebuild_refuses_an_empty_listing() {
    let error = Rebuild::new()
        .finish(EmptyArchive::Refuse, "the bucket")
        .expect_err("nothing was listed");
    assert_eq!(
        error.message(),
        "the bucket listed no objects, so the index would stay empty (pass --allow-empty if that \
         archive really is empty)"
    );
    assert_eq!(
        Rebuild::new()
            .finish(EmptyArchive::Accept, "the bucket")
            .expect("told to")
            .objects,
        0
    );
    let mut rebuild = Rebuild::new();
    assert_eq!(rebuild.row(&key(0)).expect("a key").to_key().len(), key(0).len());
    assert!(matches!(
        rebuild.row("nope"),
        Err(RebuildError::ObjectName(_))
    ));
    assert_eq!(
        rebuild
            .finish(EmptyArchive::Refuse, "the bucket")
            .expect("two keys")
            .objects,
        2
    );
    assert_eq!(
        RebuildError::Archive(ArchiveError::List {
            reason: "no".to_string()
        })
        .message(),
        "listing the archive: no"
    );
    assert_eq!(
        RebuildError::Index(IndexError::Sqlite("no".to_string())).message(),
        "sqlite: no"
    );
}
