//! The names objects are filed under in the archive.
//!
//! A key is time-major: the day folder orders the corpus and the id orders within a day, so one
//! start-after cursor is enough to read on from where a reader stopped.

use vstd::prelude::*;
use vstd::utf8;

use crate::date;
use crate::date::Date;
use crate::id;
use crate::outside;
use crate::path;
use crate::text;
use crate::wire::agent;
use crate::wire::agent::AgentId;
use crate::wire::pool;
use crate::wire::pool::PoolId;

verus! {

/// What every key begins with.
pub const KEY_PREFIX: &'static str = "v1/";

/// What every key ends with: JSON Lines, zstd-compressed.
pub const KEY_SUFFIX: &'static str = ".jsonl.zst";

/// The schema version of a batch of metric samples.
pub const SCHEMA_VERSION_SAMPLES: u32 = 1;

/// The schema version of a batch of log lines.
pub const SCHEMA_VERSION_LINES: u32 = 2;

/// How many bytes the hyphenated form of an id has.
pub const ID_BYTES: usize = 36;

/// The last second of the year 9999, the last year that a folder can name.
pub const LAST_SECOND: u64 = 253_402_300_799;

/// Which payload a batch carries, as the object key spells it.
#[derive(Debug, Clone, Copy, PartialEq, Eq, Structural)]
pub enum Kind {
    Metrics,
    Logs,
}

impl Kind {
    /// How a kind is spelled.
    pub open spec fn spelled(self) -> Seq<char> {
        match self {
            Kind::Metrics => "metrics"@,
            Kind::Logs => "logs"@,
        }
    }

    /// The kind of a schema version; nothing for a version without a name.
    pub fn of(schema_version: u32) -> (r: Option<Kind>)
        ensures
            r == kind_of_version(schema_version),
    {
        if schema_version == SCHEMA_VERSION_SAMPLES {
            Some(Kind::Metrics)
        } else if schema_version == SCHEMA_VERSION_LINES {
            Some(Kind::Logs)
        } else {
            None
        }
    }

    /// How this kind is spelled.
    pub fn as_str(&self) -> (r: &'static str)
        ensures
            r@ == self.spelled(),
    {
        match self {
            Kind::Metrics => "metrics",
            Kind::Logs => "logs",
        }
    }

    /// The kind that is spelled so.
    pub fn parse(segment: &str) -> (r: Option<Kind>)
        ensures
            r == kind_spelled(segment@),
    {
        if text::same(segment, "metrics") {
            Some(Kind::Metrics)
        } else if text::same(segment, "logs") {
            Some(Kind::Logs)
        } else {
            None
        }
    }
}

/// The kind of a schema version.
pub open spec fn kind_of_version(schema_version: u32) -> Option<Kind> {
    if schema_version == SCHEMA_VERSION_SAMPLES {
        Some(Kind::Metrics)
    } else if schema_version == SCHEMA_VERSION_LINES {
        Some(Kind::Logs)
    } else {
        None
    }
}

/// The kind that is spelled so.
pub open spec fn kind_spelled(segment: Seq<char>) -> Option<Kind> {
    if segment == Kind::Metrics.spelled() {
        Some(Kind::Metrics)
    } else if segment == Kind::Logs.spelled() {
        Some(Kind::Logs)
    } else {
        None
    }
}

/// What an object key encodes.
#[derive(Debug, PartialEq, Eq)]
pub struct ObjectName {
    /// The id stamped when the submission was received. Uniqueness is this id's alone.
    pub id: u128,
    pub pool_id: PoolId,
    pub agent_id: AgentId,
    pub kind: Kind,
}

/// What an object name is, over plain values.
pub struct Name {
    pub id: u128,
    pub pool: Seq<u8>,
    pub agent: Seq<char>,
    pub kind: Kind,
}

/// A key that nothing is filed under, and why.
#[derive(Debug)]
pub struct ObjectNameError {
    pub key: String,
    pub reason: String,
}

/// What is said of a key that names nothing.
pub open spec fn key_fault_text(key: Seq<char>, reason: Seq<char>) -> Seq<char> {
    outside::quoted(key) + " is not a v1 archive object key: "@ + reason
}

impl ObjectNameError {
    /// What is said of the key.
    pub fn message(&self) -> (r: String)
        ensures
            r@ == key_fault_text(self.key@, self.reason@),
    {
        let mut r = outside::quote(self.key.as_str());
        r.append(" is not a v1 archive object key: ");
        r.append(self.reason.as_str());
        r
    }
}

/// Whether an id can name an object: of version 7, in a year that a folder can name.
pub open spec fn stampable(id: u128) -> bool {
    outside::is_v7(id) && outside::v7_millis(id) / 1000 <= LAST_SECOND
}

/// The day, in UTC, that an id was stamped on.
pub open spec fn stamped_on(id: u128) -> Date {
    date::date_of(719_163 + outside::v7_millis(id) / 1000 / 86_400)
}

impl Name {
    /// Whether this names an object.
    pub open spec fn valid(self) -> bool {
        &&& stampable(self.id)
        &&& self.pool.len() == pool::POOL_HASH_BYTES
        &&& agent::is_slug(self.agent)
    }

    /// The stem of the file: `<id>-<pool>-<agent>-<kind>`.
    pub open spec fn stem(self) -> Seq<char> {
        outside::hyphenated(self.id) + seq!['-'] + (pool::bech32_of_pool(self.pool) + seq!['-'] + (
        self.agent + seq!['-'] + self.kind.spelled()))
    }

    /// The key this names.
    pub open spec fn key(self) -> Seq<char> {
        KEY_PREFIX@ + stamped_on(self.id).folder() + seq!['/'] + (self.stem() + KEY_SUFFIX@)
    }
}

impl View for ObjectName {
    type V = Name;

    open spec fn view(&self) -> Name {
        Name { id: self.id, pool: self.pool_id@, agent: self.agent_id@, kind: self.kind }
    }
}

impl ObjectName {
    /// The name a submission received at an instant is filed under: `seconds` since 1970 and
    /// `nanos` within the second.
    pub fn stamped(
        seconds: u64,
        nanos: u32,
        pool_id: PoolId,
        agent_id: AgentId,
        kind: Kind,
    ) -> (r: ObjectName)
        requires
            seconds <= LAST_SECOND,
            nanos < 1_000_000_000,
        ensures
            r@.valid(),
            outside::v7_millis(r.id) == seconds * 1000 + nanos as int / 1_000_000,
            r@.pool == pool_id@,
            r@.agent == agent_id@,
            r@.kind == kind,
    {
        let id: u128 = outside::uuid_new_v7(seconds, nanos);
        let _ = agent_id.as_str();
        ObjectName { id, pool_id, agent_id, kind }
    }

    /// The day the id was stamped on, UTC. Read out of the id rather than held beside it, so
    /// the folder and the object cannot name two days.
    pub fn date(&self) -> (r: Date)
        requires
            stampable(self.id),
        ensures
            r == stamped_on(self.id),
            r.valid(),
    {
        let r = outside::utc_date(outside::uuid_seconds(self.id));
        proof {
            date::lemma_date_of(r);
        }
        r
    }

    /// The key this names. It reads back as this name.
    pub fn to_key(&self) -> (r: String)
        requires
            stampable(self.id),
        ensures
            r@ == self@.key(),
            self@.valid(),
            parsed(r@) == Ok::<Name, Seq<char>>(self@),
    {
        let mut r = String::from_str(KEY_PREFIX);
        r.append(self.date().to_folder().as_str());
        r.push('/');
        let ghost head = r@;
        r.append(outside::uuid_text(self.id).as_str());
        r.push('-');
        r.append(self.pool_id.to_bech32().as_str());
        r.push('-');
        r.append(self.agent_id.as_str());
        r.push('-');
        r.append(self.kind.as_str());
        assert(r@ =~= head + self@.stem());
        r.append(KEY_SUFFIX);
        assert(r@ =~= self@.key());
        proof {
            parse_inverts_key(self@);
        }
        r
    }
}

impl Clone for ObjectName {
    fn clone(&self) -> (r: Self)
        ensures
            r@ == self@,
            r.id == self.id,
    {
        ObjectName {
            id: self.id,
            pool_id: self.pool_id,
            agent_id: self.agent_id.clone(),
            kind: self.kind,
        }
    }
}

/// Whether `s` can be cut after its first 36 bytes.
pub open spec fn id_cut(s: Seq<char>) -> bool {
    utf8::is_char_boundary(utf8::encode_utf8(s), ID_BYTES as int)
}

/// The first 36 bytes of `s`.
pub open spec fn id_part(s: Seq<char>) -> Seq<char> {
    utf8::decode_utf8(utf8::encode_utf8(s).subrange(0, ID_BYTES as int))
}

/// What follows the first 36 bytes of `s`.
pub open spec fn after_id(s: Seq<char>) -> Seq<char> {
    utf8::decode_utf8(utf8::encode_utf8(s).subrange(ID_BYTES as int, utf8::encode_utf8(s).len() as int))
}

/// The id that a text of 36 bytes spells, in letters of either case.
pub open spec fn id_spelled(s: Seq<char>) -> Option<u128> {
    if exists|id: u128| outside::lowered(s) == #[trigger] outside::hyphenated(id) {
        Some(choose|id: u128| outside::lowered(s) == #[trigger] outside::hyphenated(id))
    } else {
        None
    }
}

/// What a key names, or why it names nothing: the first of these that fails.
pub open spec fn parsed(key: Seq<char>) -> Result<Name, Seq<char>> {
    let segments = text::pieces(key, '/');
    if segments.len() != 3 {
        Err("expected v1/<date>/<file>"@)
    } else if segments[0] != "v1"@ {
        Err("schema prefix is "@ + outside::quoted(segments[0]) + ", not "@ + outside::quoted("v1"@))
    } else {
        match text::before_suffix(segments[2], KEY_SUFFIX@) {
            None => Err(outside::quoted(segments[2]) + " is not a .jsonl.zst object"@),
            Some(stem) => stem_parsed(key, segments[1], stem),
        }
    }
}

/// What the stem of a file names.
pub open spec fn stem_parsed(key: Seq<char>, folder: Seq<char>, stem: Seq<char>) -> Result<
    Name,
    Seq<char>,
> {
    if !id_cut(stem) {
        Err(outside::quoted(stem) + " is shorter than a uuid"@)
    } else {
        match id_spelled(id_part(stem)) {
            None => Err(
                "id "@ + outside::quoted(id_part(stem)) + ": "@ + "failed to parse a UUID"@,
            ),
            Some(id) => if !outside::is_v7(id) {
                Err("id "@ + outside::hyphenated(id) + " is not a uuid v7"@)
            } else {
                rest_parsed(key, folder, stem, id, after_id(stem))
            },
        }
    }
}

/// What the part of a stem after its id names.
pub open spec fn rest_parsed(
    key: Seq<char>,
    folder: Seq<char>,
    stem: Seq<char>,
    id: u128,
    rest: Seq<char>,
) -> Result<Name, Seq<char>> {
    match text::after_prefix(rest, seq!['-']) {
        None => Err(outside::quoted(stem) + " is not <id>-<pool>-<agent>-<kind>"@),
        Some(rest) => match text::halves(rest, '-') {
            None => Err(outside::quoted(rest) + " is not <pool>-<agent>-<kind>"@),
            Some((pool, rest)) => match text::last_halves(rest, '-') {
                None => Err(outside::quoted(rest) + " is not <agent>-<kind>"@),
                Some((agent, kind)) => parts_parsed(key, folder, id, pool, agent, kind),
            },
        },
    }
}

/// What the parts of a stem name.
pub open spec fn parts_parsed(
    key: Seq<char>,
    folder: Seq<char>,
    id: u128,
    pool: Seq<char>,
    agent: Seq<char>,
    kind: Seq<char>,
) -> Result<Name, Seq<char>> {
    match pool::pool_of_bech32(pool) {
        Err(fault) => Err(pool::pool_fault_text(fault)),
        Ok(hash) => if !agent::is_slug(agent) {
            Err(agent::agent_fault_text(agent))
        } else {
            match kind_spelled(kind) {
                None => Err(outside::quoted(kind) + " is not a payload kind"@),
                Some(kind) => {
                    let name = Name { id, pool: hash, agent, kind };
                    if outside::v7_millis(id) / 1000 > LAST_SECOND {
                        Err("id "@ + outside::hyphenated(id) + " is stamped past the year 9999"@)
                    } else if name.key() != key {
                        Err(
                            "the "@ + folder + " folder is not where "@ + outside::hyphenated(id)
                                + " was stamped"@,
                        )
                    } else {
                        Ok(name)
                    }
                },
            }
        },
    }
}

/// Whether the bech32 text of a pool reads back as that pool and is made of lower-case letters
/// and digits, as `PoolId::to_bech32` gives it.
pub open spec fn pool_reads_back(hash: Seq<u8>) -> bool {
    let s = pool::bech32_of_pool(hash);
    &&& pool::pool_of_bech32(s) == Ok::<Seq<u8>, pool::PoolIdFault>(hash)
    &&& forall|i: int| 0 <= i < s.len() ==> outside::bech32_char(#[trigger] s[i])
}

/// A key that names an object is the key of what it names.
pub proof fn parsed_key_is_canonical(key: Seq<char>)
    ensures
        parsed(key) matches Ok(name) ==> name.valid() && name.key() == key,
{
}

proof fn lemma_hyphenated_chars(id: u128)
    ensures
        forall|i: int|
            0 <= i < 36 ==> agent::slug_char(#[trigger] outside::hyphenated(id)[i]),
        outside::lowered(outside::hyphenated(id)) == outside::hyphenated(id),
        id_spelled(outside::hyphenated(id)) == Some(id),
{
    let s = outside::hyphenated(id);
    assert forall|i: int| 0 <= i < 36 implies agent::slug_char(#[trigger] s[i]) by {
        let n = outside::nibble(id, outside::digit_at(i));
        assert(0 <= n < 16);
    }
    assert(outside::lowered(s) =~= s);
    let found = id_spelled(s)->0;
    assert(outside::lowered(s) == outside::hyphenated(id));
    assert(outside::hyphenated(found) == outside::hyphenated(id));
    id::written_alike_is_the_same(found, id);
}

proof fn lemma_ascii_cut(head: Seq<char>, rest: Seq<char>)
    requires
        head.len() == ID_BYTES,
        rest.len() > 0,
        utf8::is_ascii_chars(head + rest),
    ensures
        id_cut(head + rest),
        id_part(head + rest) == head,
        after_id(head + rest) == rest,
{
    let s = head + rest;
    let b = utf8::encode_utf8(s);
    utf8::is_ascii_chars_concat(s, head, rest);
    utf8::is_ascii_chars_encode_utf8(s);
    utf8::is_ascii_chars_encode_utf8(head);
    utf8::is_ascii_chars_encode_utf8(rest);
    utf8::encode_utf8_valid_utf8(s);
    assert(s[36] as u8 == b[36]);
    assert(!utf8::is_continuation_byte(b[36]));
    utf8::is_char_boundary_iff_not_is_continuation_byte(b, 36);
    assert forall|i: int| 0 <= i < 36 implies b[i] == utf8::encode_utf8(head)[i] by {
        assert(s[i] == head[i]);
    }
    assert(b.subrange(0, 36) =~= utf8::encode_utf8(head));
    assert forall|i: int| 0 <= i < rest.len() implies b[36 + i] == utf8::encode_utf8(rest)[i] by {
        assert(s[36 + i] == rest[i]);
    }
    assert(b.subrange(36, b.len() as int) =~= utf8::encode_utf8(rest));
    utf8::encode_utf8_decode_utf8(head);
    utf8::encode_utf8_decode_utf8(rest);
}

proof fn lemma_folder_has_no_slash(d: Date)
    ensures
        !d.folder().contains('/'),
{
    assert forall|i: int| 0 <= i < 10 implies d.folder()[i] != '/' by {}
}

/// The key of a name is a path of three segments: the schema, the day the id was stamped on, and a
/// file whose stem is made of lower-case letters, digits and dashes.
pub proof fn a_key_is_three_segments(name: Name)
    requires
        name.valid(),
        pool_reads_back(name.pool),
    ensures
        text::pieces(name.key(), '/') == seq![
            "v1"@,
            stamped_on(name.id).folder(),
            name.stem() + KEY_SUFFIX@,
        ],
        forall|i: int| 0 <= i < name.stem().len() ==> agent::slug_char(#[trigger] name.stem()[i]),
        !stamped_on(name.id).folder().contains('/'),
        !(name.stem() + KEY_SUFFIX@).contains('/'),
{
    reveal_strlit("v1/");
    reveal_strlit("v1");
    reveal_strlit(".jsonl.zst");
    reveal_strlit("metrics");
    reveal_strlit("logs");
    let key = name.key();
    let stem = name.stem();
    let folder = stamped_on(name.id).folder();
    let file = stem + KEY_SUFFIX@;
    let id = outside::hyphenated(name.id);
    let pool = pool::bech32_of_pool(name.pool);
    let tail = name.agent + seq!['-'] + name.kind.spelled();
    lemma_hyphenated_chars(name.id);
    assert(stem =~= id + (seq!['-'] + (pool + seq!['-'] + tail)));
    assert forall|i: int| 0 <= i < stem.len() implies agent::slug_char(#[trigger] stem[i]) by {
        if i < 36 {
            assert(stem[i] == id[i]);
        } else if i > 36 && i < 37 + pool.len() {
            assert(stem[i] == pool[i - 37]);
        } else if i > 37 + pool.len() {
            let t = i - 38 - pool.len();
            assert(stem[i] == tail[t]);
            if t < name.agent.len() {
                assert(tail[t] == name.agent[t]);
            }
        }
    }
    assert(!file.contains('/')) by {
        assert forall|i: int| 0 <= i < file.len() implies file[i] != '/' by {
            if i < stem.len() {
                assert(file[i] == stem[i]);
            }
        }
    }
    assert(!"v1"@.contains('/'));
    lemma_folder_has_no_slash(stamped_on(name.id));
    assert(key =~= "v1"@ + seq!['/'] + (folder + seq!['/'] + file));
    text::lemma_pieces_step("v1"@, '/', folder + seq!['/'] + file);
    text::lemma_pieces_step(folder, '/', file);
    text::lemma_pieces_end(file, '/');
    assert(text::pieces(key, '/') =~= seq!["v1"@, folder, file]);
}

/// Every object lands below the directory it is downloaded into: no segment of its key leads
/// upward, and the first one names something.
pub proof fn a_key_stays_below(name: Name)
    requires
        name.valid(),
        pool_reads_back(name.pool),
    ensures
        path::stays_below(name.key()),
        !path::absolute(name.key()),
{
    a_key_is_three_segments(name);
    reveal_strlit("v1/");
    reveal_strlit("v1");
    reveal_strlit(".");
    reveal_strlit("..");
    reveal_strlit(".jsonl.zst");
    let segments = text::pieces(name.key(), '/');
    assert(segments[0].len() == 2 && segments[0][0] == 'v');
    assert(segments[1].len() == 10);
    assert(segments[2].len() > 10);
    assert(name.key()[0] == KEY_PREFIX@[0]);
}

/// Reading the key of a name gives that name: `parsed` inverts `Name::key`.
pub proof fn parse_inverts_key(name: Name)
    requires
        name.valid(),
        pool_reads_back(name.pool),
    ensures
        parsed(name.key()) == Ok::<Name, Seq<char>>(name),
{
    reveal_strlit("v1/");
    reveal_strlit("v1");
    reveal_strlit(".jsonl.zst");
    reveal_strlit("metrics");
    reveal_strlit("logs");
    let stem = name.stem();
    let file = stem + KEY_SUFFIX@;
    let id = outside::hyphenated(name.id);
    let pool = pool::bech32_of_pool(name.pool);
    let tail = name.agent + seq!['-'] + name.kind.spelled();
    let rest = pool + seq!['-'] + tail;
    let after = seq!['-'] + rest;
    lemma_hyphenated_chars(name.id);
    a_key_is_three_segments(name);
    assert(stem =~= id + after);
    assert(file.skip(file.len() - KEY_SUFFIX@.len()) =~= KEY_SUFFIX@);
    assert(file.take(file.len() - KEY_SUFFIX@.len()) =~= stem);
    assert(utf8::is_ascii_chars(stem));
    lemma_ascii_cut(id, after);
    assert(after.take(1) =~= seq!['-']);
    assert(after.skip(1) =~= rest);
    assert(!pool.contains('-'));
    text::lemma_halves(pool, '-', tail);
    assert(!name.kind.spelled().contains('-'));
    text::lemma_last_halves(name.agent, '-', name.kind.spelled());
    assert("metrics"@ != "logs"@) by {
        assert("metrics"@.len() != "logs"@.len());
    }
}

/// No two names are filed under one key.
pub proof fn keys_are_distinct(a: Name, b: Name)
    requires
        a.valid(),
        b.valid(),
        pool_reads_back(a.pool),
        pool_reads_back(b.pool),
        a.key() == b.key(),
    ensures
        a == b,
{
    parse_inverts_key(a);
    parse_inverts_key(b);
}

/// What was stamped later is filed later: the key of a smaller id stands before that of a larger.
pub proof fn later_id_is_filed_later(a: Name, b: Name)
    requires
        a.valid(),
        b.valid(),
        a.id < b.id,
    ensures
        text::before(a.key(), b.key()),
{
    let x = stamped_on(a.id);
    let y = stamped_on(b.id);
    let na: int = 719_163 + outside::v7_millis(a.id) / 1000 / 86_400;
    let nb: int = 719_163 + outside::v7_millis(b.id) / 1000 / 86_400;
    assert(na <= nb);
    date::date_exists(na);
    date::date_exists(nb);
    date::earlier_has_smaller_number(x, y);
    let restx = x.folder() + seq!['/'] + (a.stem() + KEY_SUFFIX@);
    let resty = y.folder() + seq!['/'] + (b.stem() + KEY_SUFFIX@);
    assert(a.key() =~= KEY_PREFIX@ + restx);
    assert(b.key() =~= KEY_PREFIX@ + resty);
    text::lemma_before_behind(KEY_PREFIX@, restx, resty);
    if na < nb {
        date::earlier_folder_stands_before(x, y);
        text::lemma_before_extends(
            x.folder(),
            y.folder(),
            seq!['/'] + (a.stem() + KEY_SUFFIX@),
            seq!['/'] + (b.stem() + KEY_SUFFIX@),
        );
        assert(restx =~= x.folder() + (seq!['/'] + (a.stem() + KEY_SUFFIX@)));
        assert(resty =~= y.folder() + (seq!['/'] + (b.stem() + KEY_SUFFIX@)));
    } else {
        let head = x.folder() + seq!['/'];
        text::lemma_before_behind(head, a.stem() + KEY_SUFFIX@, b.stem() + KEY_SUFFIX@);
        id::smaller_is_written_before(a.id, b.id);
        let ta = seq!['-'] + (pool::bech32_of_pool(a.pool) + seq!['-'] + (a.agent + seq!['-']
            + a.kind.spelled())) + KEY_SUFFIX@;
        let tb = seq!['-'] + (pool::bech32_of_pool(b.pool) + seq!['-'] + (b.agent + seq!['-']
            + b.kind.spelled())) + KEY_SUFFIX@;
        text::lemma_before_extends(
            outside::hyphenated(a.id),
            outside::hyphenated(b.id),
            ta,
            tb,
        );
        assert(a.stem() + KEY_SUFFIX@ =~= outside::hyphenated(a.id) + ta);
        assert(b.stem() + KEY_SUFFIX@ =~= outside::hyphenated(b.id) + tb);
    }
}

impl ObjectName {
    /// What a key names, or the first thing that keeps it from naming anything.
    pub fn parse(key: &str) -> (r: Result<ObjectName, ObjectNameError>)
        ensures
            match r {
                Ok(name) => parsed(key@) == Ok::<Name, Seq<char>>(name@),
                Err(error) => error.key@ == key@ && parsed(key@) == Err::<Name, Seq<char>>(
                    error.reason@,
                ),
            },
    {
        match ObjectName::read(key) {
            Ok(name) => Ok(name),
            Err(reason) => Err(ObjectNameError { key: String::from_str(key), reason }),
        }
    }

    fn read(key: &str) -> (r: Result<ObjectName, String>)
        ensures
            match r {
                Ok(name) => parsed(key@) == Ok::<Name, Seq<char>>(name@),
                Err(reason) => parsed(key@) == Err::<Name, Seq<char>>(reason@),
            },
    {
        let segments = text::split(key, '/');
        assert(text::views(segments@).len() == segments@.len());
        if segments.len() != 3 {
            return Err(String::from_str("expected v1/<date>/<file>"));
        }
        assert(text::views(segments@)[0] == segments@[0]@);
        assert(text::views(segments@)[1] == segments@[1]@);
        assert(text::views(segments@)[2] == segments@[2]@);
        if !text::same(segments[0].as_str(), "v1") {
            let mut r = String::from_str("schema prefix is ");
            r.append(outside::quote(segments[0].as_str()).as_str());
            r.append(", not ");
            r.append(outside::quote("v1").as_str());
            return Err(r);
        }
        match text::strip_suffix(segments[2].as_str(), KEY_SUFFIX) {
            None => {
                let mut r = outside::quote(segments[2].as_str());
                r.append(" is not a .jsonl.zst object");
                Err(r)
            },
            Some(stem) => ObjectName::read_stem(key, segments[1].as_str(), stem.as_str()),
        }
    }

    fn read_stem(key: &str, folder: &str, stem: &str) -> (r: Result<ObjectName, String>)
        ensures
            match r {
                Ok(name) => stem_parsed(key@, folder@, stem@) == Ok::<Name, Seq<char>>(name@),
                Err(reason) => stem_parsed(key@, folder@, stem@) == Err::<Name, Seq<char>>(
                    reason@,
                ),
            },
    {
        if !stem.is_char_boundary(ID_BYTES) {
            let mut r = outside::quote(stem);
            r.append(" is shorter than a uuid");
            return Err(r);
        }
        let (id, rest) = stem.split_at(ID_BYTES);
        proof {
            utf8::encode_utf8_decode_utf8(id@);
            utf8::encode_utf8_decode_utf8(rest@);
            lemma_boundary_within(stem@);
        }
        match outside::uuid_parse(id) {
            Err(error) => {
                let mut r = String::from_str("id ");
                r.append(outside::quote(id).as_str());
                r.append(": ");
                r.append(error.as_str());
                Err(r)
            },
            Ok(uuid) => {
                proof {
                    id::written_alike_is_the_same(uuid, id_spelled(id@)->0);
                }
                if !outside::uuid_is_v7(uuid) {
                    let mut r = String::from_str("id ");
                    r.append(outside::uuid_text(uuid).as_str());
                    r.append(" is not a uuid v7");
                    return Err(r);
                }
                ObjectName::read_rest(key, folder, stem, uuid, rest)
            },
        }
    }

    fn read_rest(key: &str, folder: &str, stem: &str, id: u128, rest: &str) -> (r: Result<
        ObjectName,
        String,
    >)
        requires
            outside::is_v7(id),
        ensures
            match r {
                Ok(name) => rest_parsed(key@, folder@, stem@, id, rest@) == Ok::<Name, Seq<char>>(
                    name@,
                ),
                Err(reason) => rest_parsed(key@, folder@, stem@, id, rest@) == Err::<
                    Name,
                    Seq<char>,
                >(reason@),
            },
    {
        proof {
            reveal_strlit("-");
            assert("-"@ =~= seq!['-']);
        }
        match text::strip_prefix(rest, "-") {
            None => {
                let mut r = outside::quote(stem);
                r.append(" is not <id>-<pool>-<agent>-<kind>");
                Err(r)
            },
            Some(rest) => match text::split_once(rest.as_str(), '-') {
                None => {
                    let mut r = outside::quote(rest.as_str());
                    r.append(" is not <pool>-<agent>-<kind>");
                    Err(r)
                },
                Some((pool, rest)) => match text::rsplit_once(rest.as_str(), '-') {
                    None => {
                        let mut r = outside::quote(rest.as_str());
                        r.append(" is not <agent>-<kind>");
                        Err(r)
                    },
                    Some((agent, kind)) => ObjectName::read_parts(
                        key,
                        folder,
                        id,
                        pool.as_str(),
                        agent.as_str(),
                        kind.as_str(),
                    ),
                },
            },
        }
    }

    fn read_parts(
        key: &str,
        folder: &str,
        id: u128,
        pool: &str,
        agent: &str,
        kind: &str,
    ) -> (r: Result<ObjectName, String>)
        requires
            outside::is_v7(id),
        ensures
            match r {
                Ok(name) => parts_parsed(key@, folder@, id, pool@, agent@, kind@) == Ok::<
                    Name,
                    Seq<char>,
                >(name@),
                Err(reason) => parts_parsed(key@, folder@, id, pool@, agent@, kind@) == Err::<
                    Name,
                    Seq<char>,
                >(reason@),
            },
    {
        let pool_id = match PoolId::from_bech32(pool) {
            Err(error) => {
                return Err(error.message());
            },
            Ok(pool_id) => pool_id,
        };
        let agent_id = match AgentId::parse(agent) {
            Err(error) => {
                return Err(error.message());
            },
            Ok(agent_id) => agent_id,
        };
        let kind = match Kind::parse(kind) {
            None => {
                let mut r = outside::quote(kind);
                r.append(" is not a payload kind");
                return Err(r);
            },
            Some(kind) => kind,
        };
        if outside::uuid_seconds(id) > LAST_SECOND {
            let mut r = String::from_str("id ");
            r.append(outside::uuid_text(id).as_str());
            r.append(" is stamped past the year 9999");
            return Err(r);
        }
        let name = ObjectName { id, pool_id, agent_id, kind };
        if !text::same(name.to_key().as_str(), key) {
            let mut r = String::from_str("the ");
            r.append(folder);
            r.append(" folder is not where ");
            r.append(outside::uuid_text(id).as_str());
            r.append(" was stamped");
            return Err(r);
        }
        Ok(name)
    }
}

proof fn lemma_boundary_within(s: Seq<char>)
    requires
        id_cut(s),
    ensures
        ID_BYTES <= utf8::encode_utf8(s).len(),
{
    utf8::encode_utf8_valid_utf8(s);
}

/// Two schemas are filed, each as a kind of its own; and a kind reads back from how it is written.
pub proof fn two_schemas_are_filed(schema_version: u32, kind: Kind, s: Seq<char>)
    ensures
        kind_of_version(schema_version) == Some(Kind::Metrics) <==> schema_version == 1,
        kind_of_version(schema_version) == Some(Kind::Logs) <==> schema_version == 2,
        kind_spelled(kind.spelled()) == Some(kind),
        kind_spelled(s) matches Some(read) ==> read.spelled() == s,
{
    reveal_strlit("metrics");
    reveal_strlit("logs");
    assert("metrics"@.len() != "logs"@.len());
}

/// An object is filed under the day that its id was stamped on: the second of the stamp is one of
/// that day's, counted from 1970.
pub proof fn an_object_is_filed_under_its_day(name: Name)
    requires
        name.valid(),
    ensures
        ({
            let day = stamped_on(name.id);
            let second = outside::v7_millis(name.id) / 1000;
            let first = Date { year: 1970, month: 1, day: 1 };
            &&& day.valid()
            &&& (day.day_number() - first.day_number()) * 86_400 <= second
            &&& second < (day.day_number() - first.day_number() + 1) * 86_400
        }),
{
    let second = outside::v7_millis(name.id) / 1000;
    date::date_exists(719_163 + second / 86_400);
    assert((Date { year: 1970, month: 1, day: 1 }).day_number() == 719_163);
}

}
