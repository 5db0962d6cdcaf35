//! Paths as texts, taken apart at `/`.

use vstd::prelude::*;

use crate::text;

verus! {

/// Whether a segment names nothing: an empty one, or `.`.
pub open spec fn idle(segment: Seq<char>) -> bool {
    segment.len() == 0 || segment == "."@
}

/// Whether a path starts at the root.
pub open spec fn absolute(path: Seq<char>) -> bool {
    path.len() > 0 && path[0] == '/'
}

/// The last of the first `n` segments that names something: -1 where none does.
pub open spec fn last_named(segments: Seq<Seq<char>>, n: int) -> int
    decreases n,
{
    if n <= 0 {
        -1
    } else if !idle(segments[n - 1]) {
        n - 1
    } else {
        last_named(segments, n - 1)
    }
}

/// The name a path ends in: nothing where it ends in `..`, or names nothing but the root or the
/// directory it is read in.
pub open spec fn file_name_of(path: Seq<char>) -> Option<Seq<char>> {
    let segments = text::pieces(path, '/');
    let last = last_named(segments, segments.len() as int);
    if last < 0 || segments[last] == ".."@ {
        None
    } else {
        Some(segments[last])
    }
}

/// The path up to the segment `last`, which is left out: what it stands in.
pub open spec fn up_to(path: Seq<char>, last: int) -> Seq<char> {
    let segments = text::pieces(path, '/');
    let before = last_named(segments, last);
    if before >= 0 {
        text::joined(segments.take(before + 1), "/"@)
    } else if absolute(path) {
        "/"@
    } else if last > 0 && segments[0] == "."@ {
        "."@
    } else {
        Seq::empty()
    }
}

/// The path without what it ends in; nothing for the root and for the empty path.
pub open spec fn parent_of(path: Seq<char>) -> Option<Seq<char>> {
    let segments = text::pieces(path, '/');
    let last = last_named(segments, segments.len() as int);
    if last >= 0 {
        Some(up_to(path, last))
    } else if !absolute(path) && segments[0] == "."@ {
        Some(Seq::empty())
    } else {
        None
    }
}

/// `below` under `base`: `below` itself where it is absolute.
pub open spec fn joined_to(base: Seq<char>, below: Seq<char>) -> Seq<char> {
    if absolute(below) {
        below
    } else if base.len() == 0 || base.last() == '/' {
        base + below
    } else {
        base + seq!['/'] + below
    }
}

/// Whether a path stays below whatever it is put under: it has a first name, and no segment of it
/// leads upward.
pub open spec fn stays_below(path: Seq<char>) -> bool {
    let segments = text::pieces(path, '/');
    &&& !idle(segments[0])
    &&& forall|i: int| 0 <= i < segments.len() ==> #[trigger] segments[i] != ".."@
}

fn is_idle(segment: &str) -> (r: bool)
    ensures
        r == idle(segment@),
{
    segment.is_empty() || text::same(segment, ".")
}

fn find_named(segments: &Vec<String>, n: usize) -> (r: Option<usize>)
    requires
        n <= segments@.len(),
    ensures
        match r {
            Some(i) => i < n && last_named(text::views(segments@), n as int) == i,
            None => last_named(text::views(segments@), n as int) == -1,
        },
{
    let ghost words = text::views(segments@);
    let mut i: usize = n;
    while i > 0
        invariant
            words == text::views(segments@),
            i <= n <= segments@.len(),
            last_named(words, n as int) == last_named(words, i as int),
        decreases i,
    {
        assert(words[i - 1] == segments@[i - 1]@);
        if !is_idle(segments[i - 1].as_str()) {
            return Some(i - 1);
        }
        i -= 1;
    }
    None
}

fn head(segments: &Vec<String>, n: usize) -> (r: Vec<String>)
    requires
        n <= segments@.len(),
    ensures
        text::views(r@) == text::views(segments@).take(n as int),
{
    let mut r: Vec<String> = Vec::new();
    for i in 0..n
        invariant
            n <= segments@.len(),
            text::views(r@) == text::views(segments@).take(i as int),
    {
        let ghost before = r@;
        r.push(segments[i].clone());
        assert(text::views(r@) =~= text::views(before).push(segments@[i as int]@));
        assert(text::views(segments@).take(i + 1) =~= text::views(segments@).take(i as int).push(
            segments@[i as int]@,
        ));
    }
    r
}

/// Whether a path starts at the root.
pub fn is_absolute(path: &str) -> (r: bool)
    ensures
        r == absolute(path@),
{
    let x = text::chars_of(path);
    x.len() > 0 && x[0] == '/'
}

/// The name a path ends in.
pub fn file_name(path: &str) -> (r: Option<String>)
    ensures
        text::view_of(r) == file_name_of(path@),
{
    let segments = text::split(path, '/');
    match find_named(&segments, segments.len()) {
        None => None,
        Some(i) => {
            assert(text::views(segments@)[i as int] == segments@[i as int]@);
            if text::same(segments[i].as_str(), "..") {
                None
            } else {
                Some(segments[i].clone())
            }
        },
    }
}

/// The path without what it ends in.
pub fn parent(path: &str) -> (r: Option<String>)
    ensures
        text::view_of(r) == parent_of(path@),
{
    let segments = text::split(path, '/');
    proof {
        text::lemma_pieces_nonempty(path@, '/');
        assert(text::views(segments@)[0] == segments@[0]@);
    }
    match find_named(&segments, segments.len()) {
        Some(last) => {
            match find_named(&segments, last) {
                Some(before) => Some(text::join(head(&segments, before + 1).as_slice(), "/")),
                None => {
                    if is_absolute(path) {
                        Some(String::from_str("/"))
                    } else if last > 0 && text::same(segments[0].as_str(), ".") {
                        Some(String::from_str("."))
                    } else {
                        Some(String::new())
                    }
                },
            }
        },
        None => {
            if !is_absolute(path) && text::same(segments[0].as_str(), ".") {
                Some(String::new())
            } else {
                None
            }
        },
    }
}

/// `below` under `base`.
pub fn join(base: &str, below: &str) -> (r: String)
    ensures
        r@ == joined_to(base@, below@),
{
    if is_absolute(below) {
        return String::from_str(below);
    }
    let x = text::chars_of(base);
    let mut r = String::from_str(base);
    if x.len() > 0 && x[x.len() - 1] != '/' {
        r.push('/');
    }
    r.append(below);
    assert(r@ =~= joined_to(base@, below@));
    r
}

/// Whether a path stays below whatever it is put under.
pub fn is_below(path: &str) -> (r: bool)
    ensures
        r == stays_below(path@),
{
    let segments = text::split(path, '/');
    let ghost words = text::views(segments@);
    proof {
        text::lemma_pieces_nonempty(path@, '/');
        assert(words[0] == segments@[0]@);
    }
    if is_idle(segments[0].as_str()) {
        return false;
    }
    for i in 0..segments.len()
        invariant
            words == text::views(segments@),
            words == text::pieces(path@, '/'),
            forall|j: int| 0 <= j < i ==> #[trigger] words[j] != ".."@,
    {
        assert(words[i as int] == segments@[i as int]@);
        if text::same(segments[i].as_str(), "..") {
            return false;
        }
    }
    true
}

/// A path that stays below is put under its base: what comes out begins with the base and ends
/// with the path.
pub proof fn below_is_under_its_base(base: Seq<char>, path: Seq<char>)
    requires
        stays_below(path),
    ensures
        text::begins(joined_to(base, path), base),
        text::ends(joined_to(base, path), path),
        !absolute(path),
{
    text::lemma_pieces_nonempty(path, '/');
    if absolute(path) {
        text::lemma_position_is(path, '/', 0);
        assert(path.take(0).len() == 0);
    }
    let r = joined_to(base, path);
    assert(r.take(base.len() as int) =~= base);
    assert(r.skip(r.len() - path.len()) =~= path);
}

/// A path is its parent and its file name: whatever is put below a directory is named by its last
/// segment, and lies in that directory.
pub proof fn a_path_is_its_parent_and_name(base: Seq<char>, name: Seq<char>)
    requires
        !idle(text::pieces(base, '/').last()),
        !name.contains('/'),
        !idle(name),
        name != ".."@,
    ensures
        file_name_of(base + seq!['/'] + name) == Some(name),
        parent_of(base + seq!['/'] + name) == Some(base),
        joined_to(base, name) == base + seq!['/'] + name,
{
    let whole = base + seq!['/'] + name;
    let segments = text::pieces(base, '/');
    text::lemma_pieces_push(base, '/', name);
    text::lemma_pieces_nonempty(base, '/');
    text::pieces_join_back(base, '/');
    reveal_strlit("/");
    assert("/"@ =~= seq!['/']);
    assert(text::pieces(whole, '/') == segments.push(name));
    let n = segments.len() as int;
    assert(segments.push(name)[n] == name);
    assert(last_named(segments.push(name), n + 1) == n);
    assert(segments.push(name)[n - 1] == segments.last());
    assert(last_named(segments.push(name), n) == n - 1);
    assert(segments.push(name).take(n) =~= segments);
    if absolute(name) {
        assert(name.contains(name[0]));
    }
    if base.len() == 0 {
        text::lemma_pieces_end(base, '/');
        assert(segments.last() == base);
    } else if base.last() == '/' {
        assert(base =~= base.drop_last() + seq!['/'] + Seq::<char>::empty());
        text::lemma_pieces_push(base.drop_last(), '/', Seq::empty());
        assert(segments.last() == Seq::<char>::empty());
    }
}

/// An absolute path stands alone wherever it is put; any other is put below what it is put under,
/// with one separator between them.
pub proof fn an_absolute_path_stands_alone(base: Seq<char>, below: Seq<char>)
    ensures
        absolute(seq!['/'] + below),
        joined_to(base, seq!['/'] + below) == seq!['/'] + below,
        !absolute(below) ==> joined_to(base + seq!['/'], below) == base + seq!['/'] + below,
        !absolute(below) && base.len() > 0 && base.last() != '/' ==> joined_to(base, below)
            == joined_to(base + seq!['/'], below),
        !absolute(below) ==> joined_to(Seq::empty(), below) == below,
{
    assert((seq!['/'] + below)[0] == '/');
    assert((base + seq!['/']).last() == '/');
    assert(Seq::<char>::empty() + below =~= below);
}

proof fn lemma_last_named_of_more(segments: Seq<Seq<char>>, more: Seq<char>, n: int)
    requires
        0 <= n <= segments.len(),
    ensures
        last_named(segments.push(more), n) == last_named(segments, n),
        -1 <= last_named(segments, n) < n || n == 0,
    decreases n,
{
    if n > 0 {
        assert(segments.push(more)[n - 1] == segments[n - 1]);
        lemma_last_named_of_more(segments, more, n - 1);
    }
}

/// A separator at its end changes neither the name of a path nor where it lies.
pub proof fn a_separator_at_the_end_is_nothing(path: Seq<char>)
    requires
        path.len() > 0,
    ensures
        file_name_of(path + seq!['/']) == file_name_of(path),
        last_named(text::pieces(path, '/'), text::pieces(path, '/').len() as int) >= 0 ==> parent_of(
            path + seq!['/'],
        ) == parent_of(path),
{
    let segments = text::pieces(path, '/');
    let n = segments.len() as int;
    let none = Seq::<char>::empty();
    text::lemma_pieces_nonempty(path, '/');
    text::lemma_pieces_push(path, '/', none);
    assert(path + seq!['/'] + none =~= path + seq!['/']);
    let longer = segments.push(none);
    assert(text::pieces(path + seq!['/'], '/') == longer);
    assert(longer[n] == none);
    assert(last_named(longer, n + 1) == last_named(longer, n));
    lemma_last_named_of_more(segments, none, n);
    let last = last_named(segments, n);
    assert((path + seq!['/'])[0] == path[0]);
    if last >= 0 {
        assert(longer[last] == segments[last]);
        lemma_last_named_of_more(segments, none, last);
        let before = last_named(segments, last);
        if before >= 0 {
            assert(longer.take(before + 1) =~= segments.take(before + 1));
        }
        assert(longer[0] == segments[0]);
    }
}

/// A bare name is its own file name, and lies in no directory that is named.
pub proof fn a_bare_name_lies_where_it_is(name: Seq<char>)
    requires
        !name.contains('/'),
        !idle(name),
        name != ".."@,
    ensures
        file_name_of(name) == Some(name),
        parent_of(name) == Some(Seq::<char>::empty()),
{
    text::lemma_pieces_end(name, '/');
    let segments = text::pieces(name, '/');
    assert(segments[0] == name);
    assert(last_named(segments, 1) == 0);
    assert(last_named(segments, 0) == -1);
    if absolute(name) {
        assert(name.contains(name[0]));
    }
}

}
