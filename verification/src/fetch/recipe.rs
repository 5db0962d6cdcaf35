//! How a downloaded archive is read back, as one duckdb table function, so a sync can print the
//! read for the directory it just wrote.

use vstd::prelude::*;

use crate::fetch::sync;
use crate::key;
use crate::key::{Kind, KEY_PREFIX, KEY_SUFFIX};
use crate::outside;
use crate::path;
use crate::text;
use crate::wire::pool;

verus! {

/// The names of the files read: every object, or only those of one kind.
pub open spec fn files(kind: Option<Kind>) -> Seq<char> {
    match kind {
        Some(kind) => "*-"@ + kind.spelled() + KEY_SUFFIX@,
        None => "*"@ + KEY_SUFFIX@,
    }
}

/// Where those files are: a day folder per key, so one `*` under the schema prefix reaches every
/// object without a recursive walk.
pub open spec fn glob(into: Seq<char>, kind: Option<Kind>) -> Seq<char> {
    path::joined_to(into, KEY_PREFIX@ + "*/"@ + files(kind))
}

/// The read of a download directory.
pub open spec fn read_of(into: Seq<char>, kind: Option<Kind>) -> Seq<char> {
    "read_json('"@ + text::replaced_char(glob(into, kind), '\'', "''"@) + "', sample_size=-1)"@
}

/// The objects `into` holds, or only those of one `kind`, as a duckdb table function.
///
/// `into` is escaped into the SQL literal and no further: a download directory whose own name
/// holds `*`, `?` or `[` is one this read cannot name, because those are the glob's.
pub fn read(into: &str, kind: Option<Kind>) -> (r: String)
    ensures
        r@ == read_of(into@, kind),
{
    let mut below = String::from_str(KEY_PREFIX);
    below.append("*/");
    let ghost head = below@;
    match kind {
        Some(kind) => {
            below.append("*-");
            below.append(kind.as_str());
            below.append(KEY_SUFFIX);
        },
        None => {
            below.append("*");
            below.append(KEY_SUFFIX);
        },
    }
    assert(below@ =~= head + files(kind));
    let glob = path::join(into, below.as_str());
    let mut r = String::from_str("read_json('");
    r.append(text::replace_char(glob.as_str(), '\'', "''").as_str());
    r.append("', sample_size=-1)");
    r
}

/// No quote of a directory's name ends the SQL literal it is put in: every run of quotes in the
/// literal is of even length.
pub proof fn quotes_are_doubled(s: Seq<char>)
    ensures
        quotes_pair_up(text::replaced_char(s, '\'', "''"@)),
    decreases s.len(),
{
    reveal_strlit("''");
    if s.len() > 0 {
        quotes_are_doubled(s.drop_last());
        let before = text::replaced_char(s.drop_last(), '\'', "''"@);
        if s.last() == '\'' {
            let after = before + "''"@;
            assert(after.last() == '\'');
            assert(after.drop_last().last() == '\'');
            assert(after.drop_last().drop_last() =~= before);
        } else {
            let after = before + seq![s.last()];
            assert(after.drop_last() =~= before);
        }
    }
}

/// Whether the quotes in a text stand in pairs.
pub open spec fn quotes_pair_up(s: Seq<char>) -> bool
    decreases s.len(),
{
    if s.len() == 0 {
        true
    } else if s.last() != '\'' {
        quotes_pair_up(s.drop_last())
    } else {
        s.len() >= 2 && s.drop_last().last() == '\'' && quotes_pair_up(s.drop_last().drop_last())
    }
}

/// Whether a glob matches a path: each `*` stands for a run of characters that holds no `/`, and
/// every other character for itself.
pub open spec fn globbed(pattern: Seq<char>, path: Seq<char>) -> bool
    decreases pattern.len(),
{
    if pattern.len() == 0 {
        path.len() == 0
    } else if pattern[0] == '*' {
        exists|n: int|
            0 <= n <= path.len() && !path.take(n).contains('/') && globbed(
                pattern.skip(1),
                #[trigger] path.skip(n),
            )
    } else {
        path.len() > 0 && path[0] == pattern[0] && globbed(pattern.skip(1), path.skip(1))
    }
}

/// A text is matched by itself in front of what is matched.
proof fn lemma_globbed_behind(head: Seq<char>, pattern: Seq<char>, path: Seq<char>)
    requires
        globbed(pattern, path),
    ensures
        globbed(head + pattern, head + path),
    decreases head.len(),
{
    if head.len() == 0 {
        assert(head + pattern =~= pattern);
        assert(head + path =~= path);
    } else {
        let rest = head.skip(1);
        lemma_globbed_behind(rest, pattern, path);
        assert((head + pattern).skip(1) =~= rest + pattern);
        assert((head + path).skip(1) =~= rest + path);
        if head[0] == '*' {
            let whole = head + path;
            assert(whole.take(1) =~= seq!['*']);
            assert(globbed((head + pattern).skip(1), whole.skip(1)));
        }
    }
}

/// A star is matched by a run without a `/`, in front of what is matched.
proof fn lemma_star(run: Seq<char>, pattern: Seq<char>, path: Seq<char>)
    requires
        !run.contains('/'),
        globbed(pattern, path),
    ensures
        globbed(seq!['*'] + pattern, run + path),
{
    let whole = run + path;
    let n = run.len() as int;
    assert((seq!['*'] + pattern).skip(1) =~= pattern);
    assert(whole.take(n) =~= run);
    assert(whole.skip(n) =~= path);
    assert(globbed((seq!['*'] + pattern).skip(1), whole.skip(n)));
}

proof fn lemma_itself(s: Seq<char>)
    ensures
        globbed(s, s),
{
    lemma_globbed_behind(s, Seq::empty(), Seq::empty());
    assert(s + Seq::<char>::empty() =~= s);
}

/// What a glob that ends in plain characters matches ends in them.
proof fn lemma_globbed_ends(pattern: Seq<char>, plain: Seq<char>, path: Seq<char>)
    requires
        globbed(pattern + plain, path),
        !plain.contains('*'),
    ensures
        text::ends(path, plain),
    decreases pattern.len(), plain.len(),
{
    let whole = pattern + plain;
    if pattern.len() == 0 {
        assert(whole =~= plain);
        lemma_plain(plain, path);
        assert(path.skip(0) =~= path);
    } else {
        assert(whole.skip(1) =~= pattern.skip(1) + plain);
        if whole[0] == '*' {
            let n = choose|n: int|
                0 <= n <= path.len() && !path.take(n).contains('/') && globbed(
                    whole.skip(1),
                    #[trigger] path.skip(n),
                );
            lemma_globbed_ends(pattern.skip(1), plain, path.skip(n));
            assert(path.skip(path.len() - plain.len()) =~= path.skip(n).skip(
                path.skip(n).len() - plain.len(),
            ));
        } else {
            lemma_globbed_ends(pattern.skip(1), plain, path.skip(1));
            assert(path.skip(path.len() - plain.len()) =~= path.skip(1).skip(
                path.skip(1).len() - plain.len(),
            ));
        }
    }
}

/// What plain characters match is those characters.
proof fn lemma_plain(plain: Seq<char>, path: Seq<char>)
    requires
        globbed(plain, path),
        !plain.contains('*'),
    ensures
        path == plain,
    decreases plain.len(),
{
    if plain.len() == 0 {
        assert(path =~= plain);
    } else {
        assert(plain.contains(plain[0]));
        let rest = plain.skip(1);
        assert(!rest.contains('*')) by {
            if rest.contains('*') {
                let i = choose|i: int| 0 <= i < rest.len() && rest[i] == '*';
                assert(plain[i + 1] == '*');
            }
        }
        lemma_plain(rest, path.skip(1));
        assert(path =~= seq![path[0]] + path.skip(1));
        assert(plain =~= seq![plain[0]] + rest);
    }
}

/// What stands between the quotes of a literal, with each pair of quotes read as one.
pub open spec fn undoubled(s: Seq<char>) -> Seq<char>
    decreases s.len(),
{
    if s.len() == 0 {
        s
    } else if s.last() == '\'' && s.len() >= 2 {
        undoubled(s.drop_last().drop_last()).push('\'')
    } else {
        undoubled(s.drop_last()).push(s.last())
    }
}

/// A name that is put into a SQL literal is read back out of it as it was.
pub proof fn a_literal_reads_back(s: Seq<char>)
    ensures
        undoubled(text::replaced_char(s, '\'', "''"@)) == s,
    decreases s.len(),
{
    reveal_strlit("''");
    if s.len() > 0 {
        a_literal_reads_back(s.drop_last());
        let before = text::replaced_char(s.drop_last(), '\'', "''"@);
        if s.last() == '\'' {
            let after = before + "''"@;
            assert(after.drop_last().drop_last() =~= before);
        } else {
            assert((before + seq![s.last()]).drop_last() =~= before);
        }
        assert(s.drop_last().push(s.last()) =~= s);
    }
}

/// What a glob with a literal end matches has that end, so that no object of another kind is
/// matched.
proof fn lemma_other_kind(front: Seq<char>, asked: Kind, head: Seq<char>, kind: Kind)
    requires
        asked != kind,
    ensures
        !globbed(
            front + (seq!['-'] + asked.spelled() + KEY_SUFFIX@),
            head + (seq!['-'] + kind.spelled() + KEY_SUFFIX@),
        ),
{
    reveal_strlit(".jsonl.zst");
    reveal_strlit("metrics");
    reveal_strlit("logs");
    let plain = seq!['-'] + asked.spelled() + KEY_SUFFIX@;
    let end = seq!['-'] + kind.spelled() + KEY_SUFFIX@;
    let path = head + end;
    if globbed(front + plain, path) {
        assert forall|i: int| 0 <= i < plain.len() implies plain[i] != '*' by {}
        lemma_globbed_ends(front, plain, path);
        assert(path[path.len() - 12] == end[end.len() - 12]);
        assert(path[path.len() - 12] == path.skip(path.len() - plain.len())[plain.len() - 12]);
    }
}

/// The glob of a kind matches a file whose name ends in that kind, and so does the glob of every
/// kind.
proof fn lemma_file_matched(stem: Seq<char>, kind: Kind)
    requires
        !stem.contains('/'),
    ensures
        globbed(files(Some(kind)), stem + (seq!['-'] + kind.spelled() + KEY_SUFFIX@)),
        globbed(files(None), stem + (seq!['-'] + kind.spelled() + KEY_SUFFIX@)),
{
    reveal_strlit(".jsonl.zst");
    reveal_strlit("metrics");
    reveal_strlit("logs");
    reveal_strlit("*");
    reveal_strlit("*-");
    let end = seq!['-'] + kind.spelled() + KEY_SUFFIX@;
    lemma_itself(end);
    lemma_star(stem, end, end);
    assert(files(Some(kind)) =~= seq!['*'] + end);
    let run = stem + (seq!['-'] + kind.spelled());
    assert forall|i: int| 0 <= i < run.len() implies run[i] != '/' by {
        if i < stem.len() {
            assert(run[i] == stem[i]);
            assert(stem.contains(stem[i]));
        }
    }
    lemma_itself(KEY_SUFFIX@);
    lemma_star(run, KEY_SUFFIX@, KEY_SUFFIX@);
    assert(run + KEY_SUFFIX@ =~= stem + end);
    assert(files(None) =~= seq!['*'] + KEY_SUFFIX@);
}

/// The glob of a download directory matches the file of every object, where one kind was asked for
/// of every object of that kind and of no other.
pub proof fn the_glob_matches_what_was_written(
    into: Seq<char>,
    kind: Option<Kind>,
    name: key::Name,
)
    requires
        name.valid(),
        key::pool_reads_back(name.pool),
    ensures
        sync::destination_of(into, name.key()) is Some,
        globbed(glob(into, kind), sync::destination_of(into, name.key())->0) <==> kind is None
            || kind->0 == name.kind,
{
    reveal_strlit("v1/");
    reveal_strlit("*/");
    key::a_key_stays_below(name);
    key::a_key_is_three_segments(name);
    let folder = key::stamped_on(name.id).folder();
    let stem = outside::hyphenated(name.id) + seq!['-'] + (pool::bech32_of_pool(name.pool)
        + seq!['-'] + name.agent);
    let end = seq!['-'] + name.kind.spelled() + KEY_SUFFIX@;
    let base = if into.len() == 0 || into.last() == '/' {
        into
    } else {
        into + seq!['/']
    };
    assert(name.stem() =~= stem + (seq!['-'] + name.kind.spelled()));
    assert forall|i: int| 0 <= i < stem.len() implies stem[i] != '/' by {
        assert(name.stem()[i] == stem[i]);
    }
    let head = base + KEY_PREFIX@;
    let file = stem + end;
    let path = path::joined_to(into, name.key());
    assert(path =~= head + (folder + (seq!['/'] + file)));
    let below = KEY_PREFIX@ + "*/"@ + files(kind);
    assert(below[0] == 'v');
    let rest = seq!['/'] + files(kind);
    assert(glob(into, kind) =~= head + (seq!['*'] + rest));
    if kind is None || kind->0 == name.kind {
        lemma_file_matched(stem, name.kind);
        lemma_globbed_behind(seq!['/'], files(kind), file);
        lemma_star(folder, rest, seq!['/'] + file);
        lemma_globbed_behind(head, seq!['*'] + rest, folder + (seq!['/'] + file));
    } else {
        reveal_strlit("*-");
        let front = head + seq!['*', '/', '*'];
        assert(glob(into, kind) =~= front + (seq!['-'] + kind->0.spelled() + KEY_SUFFIX@));
        assert(path =~= (head + folder + seq!['/'] + stem) + end);
        lemma_other_kind(front, kind->0, head + folder + seq!['/'] + stem, name.kind);
    }
}

/// The read that a sync prints reaches what the sync wrote: it is a read of one SQL literal, and
/// the glob that stands in the literal matches the file of every object, where one kind was asked
/// for of every object of that kind and of no other.
pub proof fn the_read_reaches_what_was_written(
    into: Seq<char>,
    kind: Option<Kind>,
    name: key::Name,
) -> (literal: Seq<char>)
    requires
        name.valid(),
        key::pool_reads_back(name.pool),
    ensures
        read_of(into, kind) == "read_json('"@ + literal + "', sample_size=-1)"@,
        quotes_pair_up(literal),
        sync::destination_of(into, name.key()) is Some,
        globbed(undoubled(literal), sync::destination_of(into, name.key())->0) <==> kind is None
            || kind->0 == name.kind,
{
    let pattern = glob(into, kind);
    a_literal_reads_back(pattern);
    quotes_are_doubled(pattern);
    the_glob_matches_what_was_written(into, kind, name);
    text::replaced_char(pattern, '\'', "''"@)
}

/// What an operator is given to read a directory with reads what was written there: every object of
/// the kind that was asked for, or of either where none was, and none of the other.
pub proof fn what_is_given_reads_what_was_written(
    into: &str,
    kind: Option<Kind>,
    name: key::Name,
    given: String,
) -> (literal: Seq<char>)
    requires
        call_ensures(read, (into, kind), given),
        name.valid(),
        key::pool_reads_back(name.pool),
    ensures
        given@ == "read_json('"@ + literal + "', sample_size=-1)"@,
        quotes_pair_up(literal),
        sync::destination_of(into@, name.key()) is Some,
        globbed(undoubled(literal), sync::destination_of(into@, name.key())->0) <==> kind is None
            || kind->0 == name.kind,
{
    the_read_reaches_what_was_written(into@, kind, name)
}

}
