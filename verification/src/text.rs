//! Text as sequences of characters, and the operations on it that the rest of the library is
//! written with.

use vstd::prelude::*;

verus! {

/// Appending one character to a `String`, as `String::push` documents it: the given character
/// stands at the end and nothing before it changes.
pub assume_specification[ String::push ](s: &mut String, c: char)
    ensures
        final(s)@ == old(s)@.push(c),
;

/// The characters of `s`, in order.
pub fn chars_of(s: &str) -> (chars: Vec<char>)
    ensures
        chars@ == s@,
{
    let mut chars: Vec<char> = Vec::new();
    for c in it: s.chars()
        invariant
            chars@ == it.seq().take(it.index()),
            it.seq() == s@,
    {
        chars.push(c);
    }
    chars
}

/// The text that `chars` spell.
pub fn text_of(chars: &[char]) -> (s: String)
    ensures
        s@ == chars@,
{
    let mut s: String = String::new();
    for i in 0..chars.len()
        invariant
            s@ == chars@.take(i as int),
    {
        s.push(chars[i]);
    }
    s
}

/// Whether two texts are the same, character by character.
pub fn same(a: &str, b: &str) -> (r: bool)
    ensures
        r == (a@ == b@),
{
    let x = chars_of(a);
    let y = chars_of(b);
    same_chars(x.as_slice(), y.as_slice())
}

/// Whether two runs of characters are the same.
pub fn same_chars(a: &[char], b: &[char]) -> (r: bool)
    ensures
        r == (a@ == b@),
{
    if a.len() != b.len() {
        return false;
    }
    for i in 0..a.len()
        invariant
            a.len() == b.len(),
            forall|j: int| 0 <= j < i ==> a@[j] == b@[j],
    {
        if a[i] != b[i] {
            assert(a@[i as int] != b@[i as int]);
            return false;
        }
    }
    assert(a@ =~= b@);
    true
}

/// Whether a text has no characters.
pub fn is_empty(s: &str) -> (r: bool)
    ensures
        r == (s@.len() == 0),
{
    chars_of(s).len() == 0
}

/// The views of a run of texts.
pub open spec fn views(texts: Seq<String>) -> Seq<Seq<char>> {
    texts.map_values(|t: String| t@)
}

/// Whether `s` begins with `prefix`.
pub open spec fn begins(s: Seq<char>, prefix: Seq<char>) -> bool {
    prefix.len() <= s.len() && s.take(prefix.len() as int) == prefix
}

/// Whether `s` ends with `suffix`.
pub open spec fn ends(s: Seq<char>, suffix: Seq<char>) -> bool {
    suffix.len() <= s.len() && s.skip(s.len() - suffix.len()) == suffix
}

/// Whether `needle` stands at `at` in `s`.
pub open spec fn stands_at(s: Seq<char>, needle: Seq<char>, at: int) -> bool {
    0 <= at && at + needle.len() <= s.len() && s.subrange(at, at + needle.len()) == needle
}

/// A copy of the characters from `from` up to `to`.
pub fn part(s: &[char], from: usize, to: usize) -> (r: Vec<char>)
    requires
        from <= to <= s@.len(),
    ensures
        r@ == s@.subrange(from as int, to as int),
{
    let mut r: Vec<char> = Vec::new();
    for i in from..to
        invariant
            from <= i <= to <= s@.len(),
            r@ == s@.subrange(from as int, i as int),
    {
        r.push(s[i]);
        assert(s@.subrange(from as int, i + 1) =~= s@.subrange(from as int, i as int).push(s@[i as int]));
    }
    r
}

/// Whether `needle` stands at `at` in `s`.
pub fn at(s: &[char], needle: &[char], here: usize) -> (r: bool)
    ensures
        r == stands_at(s@, needle@, here as int),
{
    if needle.len() > s.len() || here > s.len() - needle.len() {
        return false;
    }
    for i in 0..needle.len()
        invariant
            here + needle@.len() <= s@.len() <= usize::MAX,
            forall|j: int| 0 <= j < i ==> s@[here + j] == needle@[j],
    {
        if s[here + i] != needle[i] {
            assert(s@.subrange(here as int, here + needle@.len())[i as int] == s@[here + i]);
            return false;
        }
    }
    assert(s@.subrange(here as int, here + needle@.len()) =~= needle@);
    true
}

/// Whether `s` begins with `prefix`.
pub fn starts_with(s: &str, prefix: &str) -> (r: bool)
    ensures
        r == begins(s@, prefix@),
{
    let x = chars_of(s);
    let y = chars_of(prefix);
    proof {
        if prefix@.len() <= s@.len() {
            assert(s@.subrange(0, prefix@.len() as int) =~= s@.take(prefix@.len() as int));
        }
    }
    at(x.as_slice(), y.as_slice(), 0)
}

/// Whether `s` ends with `suffix`.
pub fn ends_with(s: &str, suffix: &str) -> (r: bool)
    ensures
        r == ends(s@, suffix@),
{
    let x = chars_of(s);
    let y = chars_of(suffix);
    if y.len() > x.len() {
        return false;
    }
    proof {
        let from = s@.len() - suffix@.len();
        assert(s@.subrange(from, from + suffix@.len()) =~= s@.skip(from));
    }
    at(x.as_slice(), y.as_slice(), x.len() - y.len())
}

/// What follows `prefix` in `s`, where `s` begins with it.
pub open spec fn after_prefix(s: Seq<char>, prefix: Seq<char>) -> Option<Seq<char>> {
    if begins(s, prefix) {
        Some(s.skip(prefix.len() as int))
    } else {
        None
    }
}

/// What precedes `suffix` in `s`, where `s` ends with it.
pub open spec fn before_suffix(s: Seq<char>, suffix: Seq<char>) -> Option<Seq<char>> {
    if ends(s, suffix) {
        Some(s.take(s.len() - suffix.len()))
    } else {
        None
    }
}

/// The view of an optional text.
pub open spec fn view_of(text: Option<String>) -> Option<Seq<char>> {
    match text {
        Some(t) => Some(t@),
        None => None,
    }
}

/// The view of an optional borrowed text.
pub open spec fn view_of_str(text: Option<&str>) -> Option<Seq<char>> {
    match text {
        Some(t) => Some(t@),
        None => None,
    }
}

/// What follows `prefix` in `s`, where `s` begins with it.
pub fn strip_prefix(s: &str, prefix: &str) -> (r: Option<String>)
    ensures
        view_of(r) == after_prefix(s@, prefix@),
{
    if !starts_with(s, prefix) {
        return None;
    }
    let x = chars_of(s);
    let y = chars_of(prefix);
    let rest = part(x.as_slice(), y.len(), x.len());
    assert(s@.subrange(prefix@.len() as int, s@.len() as int) =~= s@.skip(prefix@.len() as int));
    Some(text_of(rest.as_slice()))
}

/// What precedes `suffix` in `s`, where `s` ends with it.
pub fn strip_suffix(s: &str, suffix: &str) -> (r: Option<String>)
    ensures
        view_of(r) == before_suffix(s@, suffix@),
{
    if !ends_with(s, suffix) {
        return None;
    }
    let x = chars_of(s);
    let y = chars_of(suffix);
    let rest = part(x.as_slice(), 0, x.len() - y.len());
    assert(s@.subrange(0, s@.len() - suffix@.len()) =~= s@.take(s@.len() - suffix@.len()));
    Some(text_of(rest.as_slice()))
}

/// Where `c` first stands in `s`: the length of `s` where it stands nowhere.
pub open spec fn position(s: Seq<char>, c: char) -> int
    decreases s.len(),
{
    if s.len() == 0 || s[0] == c {
        0
    } else {
        1 + position(s.skip(1), c)
    }
}

/// What `position` gives: nothing before it is `c`, and it is `c` where it lies inside.
pub proof fn lemma_position(s: Seq<char>, c: char)
    ensures
        0 <= position(s, c) <= s.len(),
        forall|j: int| 0 <= j < position(s, c) ==> s[j] != c,
        position(s, c) < s.len() ==> s[position(s, c)] == c,
        s.contains(c) <==> position(s, c) < s.len(),
    decreases s.len(),
{
    if s.len() > 0 && s[0] != c {
        let rest = s.skip(1);
        lemma_position(rest, c);
        let p = position(rest, c);
        assert forall|j: int| 0 <= j < 1 + p implies s[j] != c by {
            if j > 0 {
                assert(s[j] == rest[j - 1]);
            }
        }
        if p < rest.len() {
            assert(s[1 + p] == rest[p]);
        }
    }
}

/// An index before which `c` does not stand, and at which it stands or the text ends, is its
/// first position.
pub proof fn lemma_position_is(s: Seq<char>, c: char, i: int)
    requires
        0 <= i <= s.len(),
        forall|j: int| 0 <= j < i ==> s[j] != c,
        i < s.len() ==> s[i] == c,
    ensures
        position(s, c) == i,
{
    lemma_position(s, c);
    let p = position(s, c);
    if p < i {
        assert(s[p] != c);
    }
    if i < p {
        assert(s[i] != c);
    }
}

/// Where `c` first stands in `s` at or after `from`.
pub fn find_from(s: &[char], c: char, from: usize) -> (r: usize)
    requires
        from <= s@.len(),
    ensures
        from <= r <= s@.len(),
        r - from == position(s@.skip(from as int), c),
{
    let mut i: usize = from;
    while i < s.len() && s[i] != c
        invariant
            from <= i <= s@.len(),
            forall|j: int| from <= j < i ==> s@[j] != c,
        decreases s@.len() - i,
    {
        i += 1;
    }
    proof {
        let rest = s@.skip(from as int);
        assert forall|j: int| 0 <= j < i - from implies rest[j] != c by {
            assert(rest[j] == s@[from + j]);
        }
        lemma_position_is(rest, c, i - from);
    }
    i
}

/// Whether `c` stands in `s`.
pub fn has_char(s: &str, c: char) -> (r: bool)
    ensures
        r == s@.contains(c),
{
    let x = chars_of(s);
    let i = find_from(x.as_slice(), c, 0);
    proof {
        assert(s@.skip(0) =~= s@);
        lemma_position(s@, c);
    }
    i < x.len()
}

/// What stands on either side of the first `c` in `s`.
pub open spec fn halves(s: Seq<char>, c: char) -> Option<(Seq<char>, Seq<char>)> {
    let p = position(s, c);
    if p < s.len() {
        Some((s.take(p), s.skip(p + 1)))
    } else {
        None
    }
}

/// The views of an optional pair of texts.
pub open spec fn pair_views(pair: Option<(String, String)>) -> Option<(Seq<char>, Seq<char>)> {
    match pair {
        Some((a, b)) => Some((a@, b@)),
        None => None,
    }
}

/// What stands on either side of the first `c` in `s`.
pub fn split_once(s: &str, c: char) -> (r: Option<(String, String)>)
    ensures
        pair_views(r) == halves(s@, c),
{
    let x = chars_of(s);
    let i = find_from(x.as_slice(), c, 0);
    assert(s@.skip(0) =~= s@);
    if i == x.len() {
        return None;
    }
    let a = part(x.as_slice(), 0, i);
    let b = part(x.as_slice(), i + 1, x.len());
    assert(s@.subrange(0, i as int) =~= s@.take(i as int));
    assert(s@.subrange(i + 1, s@.len() as int) =~= s@.skip(i + 1));
    Some((text_of(a.as_slice()), text_of(b.as_slice())))
}

/// The pieces of `s` between one `c` and the next.
pub open spec fn pieces(s: Seq<char>, c: char) -> Seq<Seq<char>>
    decreases s.len(),
{
    let p = position(s, c);
    if 0 <= p < s.len() {
        seq![s.take(p)] + pieces(s.skip(p + 1), c)
    } else {
        seq![s]
    }
}

/// The pieces of `s` between one `c` and the next.
pub fn split(s: &str, c: char) -> (r: Vec<String>)
    ensures
        views(r@) == pieces(s@, c),
{
    let x = chars_of(s);
    let mut r: Vec<String> = Vec::new();
    let mut from: usize = 0;
    assert(s@.skip(0) =~= s@);
    loop
        invariant
            x@ == s@,
            from <= x@.len(),
            views(r@) + pieces(s@.skip(from as int), c) == pieces(s@, c),
        decreases x@.len() - from,
    {
        let i = find_from(x.as_slice(), c, from);
        let ghost rest = s@.skip(from as int);
        let piece = text_of(part(x.as_slice(), from, i).as_slice());
        let ghost before = r@;
        r.push(piece);
        assert(views(r@) =~= views(before).push(piece@));
        assert(piece@ =~= rest.take(i - from));
        if i == x.len() {
            assert(piece@ =~= rest);
            assert(pieces(rest, c) =~= seq![rest]);
            assert(views(r@) =~= views(before) + pieces(rest, c));
            return r;
        }
        proof {
            assert(rest.skip(i - from + 1) =~= s@.skip(i + 1));
            assert(views(r@) + pieces(s@.skip(i + 1), c) =~= views(before) + pieces(rest, c));
        }
        from = i + 1;
    }
}

/// The order of two texts: by their first difference, and a prefix before what it begins.
pub open spec fn before(a: Seq<char>, b: Seq<char>) -> bool
    decreases a.len(),
{
    if b.len() == 0 {
        false
    } else if a.len() == 0 {
        true
    } else if a[0] != b[0] {
        a[0] < b[0]
    } else {
        before(a.skip(1), b.skip(1))
    }
}

/// What stands first where two texts agree up to `i`: the order of the rest.
pub proof fn lemma_before_skip(a: Seq<char>, b: Seq<char>, i: int)
    requires
        0 <= i <= a.len(),
        i <= b.len(),
        a.take(i) == b.take(i),
    ensures
        before(a, b) == before(a.skip(i), b.skip(i)),
    decreases i,
{
    if i == 0 {
        assert(a.skip(0) =~= a);
        assert(b.skip(0) =~= b);
    } else {
        assert(a[0] == a.take(i)[0]);
        assert(b[0] == b.take(i)[0]);
        assert(a.skip(1).take(i - 1) =~= a.take(i).skip(1));
        assert(b.skip(1).take(i - 1) =~= b.take(i).skip(1));
        lemma_before_skip(a.skip(1), b.skip(1), i - 1);
        assert(a.skip(1).skip(i - 1) =~= a.skip(i));
        assert(b.skip(1).skip(i - 1) =~= b.skip(i));
    }
}

/// No text stands before itself.
pub proof fn lemma_before_irreflexive(a: Seq<char>)
    ensures
        !before(a, a),
    decreases a.len(),
{
    if a.len() > 0 {
        lemma_before_irreflexive(a.skip(1));
    }
}

/// The order of texts is transitive.
pub proof fn lemma_before_transitive(a: Seq<char>, b: Seq<char>, c: Seq<char>)
    requires
        before(a, b),
        before(b, c),
    ensures
        before(a, c),
    decreases a.len(),
{
    if a.len() > 0 && b.len() > 0 && c.len() > 0 && a[0] == b[0] && b[0] == c[0] {
        lemma_before_transitive(a.skip(1), b.skip(1), c.skip(1));
    }
}

/// Of two different texts one stands before the other.
pub proof fn lemma_before_total(a: Seq<char>, b: Seq<char>)
    ensures
        a == b || before(a, b) || before(b, a),
    decreases a.len(),
{
    if a.len() == 0 || b.len() == 0 {
        if a.len() == 0 && b.len() == 0 {
            assert(a =~= b);
        }
    } else if a[0] == b[0] {
        lemma_before_total(a.skip(1), b.skip(1));
        if a.skip(1) == b.skip(1) {
            assert(a =~= seq![a[0]] + a.skip(1));
            assert(b =~= seq![b[0]] + b.skip(1));
        }
    }
}

/// Whether `a` stands before `b`.
pub fn precedes(a: &str, b: &str) -> (r: bool)
    ensures
        r == before(a@, b@),
{
    let x = chars_of(a);
    let y = chars_of(b);
    let mut i: usize = 0;
    while i < x.len() && i < y.len() && x[i] == y[i]
        invariant
            x@ == a@,
            y@ == b@,
            i <= x@.len(),
            i <= y@.len(),
            a@.take(i as int) == b@.take(i as int),
        decreases x@.len() - i,
    {
        assert(a@.take(i + 1) =~= a@.take(i as int).push(a@[i as int]));
        assert(b@.take(i + 1) =~= b@.take(i as int).push(b@[i as int]));
        i += 1;
    }
    proof {
        lemma_before_skip(a@, b@, i as int);
    }
    if i == y.len() {
        false
    } else if i == x.len() {
        true
    } else {
        x[i] < y[i]
    }
}

/// `s` with `with` in place of each `c`.
pub open spec fn replaced_char(s: Seq<char>, c: char, with: Seq<char>) -> Seq<char>
    decreases s.len(),
{
    if s.len() == 0 {
        s
    } else {
        replaced_char(s.drop_last(), c, with) + (if s.last() == c {
            with
        } else {
            seq![s.last()]
        })
    }
}

/// `s` with `with` in place of each `c`.
pub fn replace_char(s: &str, c: char, with: &str) -> (r: String)
    ensures
        r@ == replaced_char(s@, c, with@),
{
    let x = chars_of(s);
    let mut r: String = String::new();
    for i in 0..x.len()
        invariant
            x@ == s@,
            r@ == replaced_char(s@.take(i as int), c, with@),
    {
        let ghost so_far = r@;
        if x[i] == c {
            r.append(with);
        } else {
            r.push(x[i]);
            assert(r@ =~= so_far + seq![s@[i as int]]);
        }
        assert(s@.take(i + 1).drop_last() =~= s@.take(i as int));
    }
    assert(s@.take(s@.len() as int) =~= s@);
    r
}

/// The texts of `parts` one after the other, `between` standing between any two.
pub open spec fn joined(parts: Seq<Seq<char>>, between: Seq<char>) -> Seq<char>
    decreases parts.len(),
{
    if parts.len() == 0 {
        Seq::empty()
    } else if parts.len() == 1 {
        parts[0]
    } else {
        joined(parts.drop_last(), between) + between + parts.last()
    }
}

/// The texts of `parts` one after the other, `between` standing between any two.
pub fn join(parts: &[String], between: &str) -> (r: String)
    ensures
        r@ == joined(views(parts@), between@),
{
    let mut r: String = String::new();
    for i in 0..parts.len()
        invariant
            r@ == joined(views(parts@.take(i as int)), between@),
    {
        let ghost now = views(parts@.take(i + 1));
        assert(now.drop_last() =~= views(parts@.take(i as int)));
        if i > 0 {
            r.append(between);
        }
        r.append(parts[i].as_str());
        assert(now.last() == parts@[i as int]@);
        if i == 0 {
            assert(r@ =~= now[0]);
        }
    }
    assert(parts@.take(parts@.len() as int) =~= parts@);
    r
}

/// The decimal digit that `d` is written as.
pub open spec fn digit_char(d: int) -> char {
    (('0' as int) + d) as char
}

/// `n` in decimal, without leading zeros.
pub open spec fn decimal(n: int) -> Seq<char>
    decreases n,
{
    if n < 10 {
        seq![digit_char(n)]
    } else {
        decimal(n / 10).push(digit_char(n % 10))
    }
}

/// The decimal digit that `d` is written as.
pub fn digit_of(d: u8) -> (c: char)
    requires
        d < 10,
    ensures
        c == digit_char(d as int),
{
    (48u8 + d) as char
}

/// `n` in decimal, without leading zeros.
pub fn decimal_of(n: u128) -> (r: String)
    ensures
        r@ == decimal(n as int),
    decreases n,
{
    let last: u8 = (n % 10) as u8;
    if n < 10 {
        let mut r: String = String::new();
        r.push(digit_of(last));
        assert(r@ =~= decimal(n as int));
        return r;
    }
    let mut r = decimal_of(n / 10);
    r.push(digit_of(last));
    r
}

/// What a decimal digit is worth.
pub open spec fn digit_value(c: char) -> Option<int> {
    if '0' <= c <= '9' {
        Some(c as int - '0' as int)
    } else {
        None
    }
}

/// What a run of decimal digits is worth; nothing where a character is no digit.
pub open spec fn digits_value(s: Seq<char>) -> Option<int>
    decreases s.len(),
{
    if s.len() == 0 {
        Some(0)
    } else {
        match (digits_value(s.drop_last()), digit_value(s.last())) {
            (Some(high), Some(low)) => Some(10 * high + low),
            _ => None,
        }
    }
}

/// A whole number as it is read: one or more decimal digits, with `+` before them or nothing,
/// worth no more than `max`.
pub open spec fn number(s: Seq<char>, max: int) -> Option<int> {
    let digits = if s.len() > 0 && s[0] == '+' {
        s.skip(1)
    } else {
        s
    };
    match digits_value(digits) {
        Some(n) if digits.len() > 0 && n <= max => Some(n),
        _ => None,
    }
}

proof fn lemma_digits_prefix(s: Seq<char>, i: int)
    requires
        0 <= i <= s.len(),
    ensures
        digits_value(s) matches Some(n) ==> digits_value(s.take(i)) matches Some(m) && 0 <= m <= n,
    decreases s.len() - i,
{
    if i < s.len() {
        lemma_digits_prefix(s, i + 1);
        assert(s.take(i + 1).drop_last() =~= s.take(i));
        lemma_digits_nonnegative(s.take(i));
    } else {
        assert(s.take(i) =~= s);
        lemma_digits_nonnegative(s);
    }
}

proof fn lemma_digits_nonnegative(s: Seq<char>)
    ensures
        digits_value(s) matches Some(n) ==> n >= 0,
    decreases s.len(),
{
    if s.len() > 0 {
        lemma_digits_nonnegative(s.drop_last());
    }
}

/// A whole number up to `max`, read as `number` says.
pub fn number_of(s: &str, max: u64) -> (r: Option<u64>)
    ensures
        match r {
            Some(n) => number(s@, max as int) == Some(n as int),
            None => number(s@, max as int) is None,
        },
{
    let x = chars_of(s);
    let from: usize = if x.len() > 0 && x[0] == '+' {
        1
    } else {
        0
    };
    let ghost digits = s@.skip(from as int);
    assert(s@.skip(0) =~= s@);
    if from == x.len() {
        return None;
    }
    let mut value: u64 = 0;
    for i in from..x.len()
        invariant
            x@ == s@,
            from <= i <= x@.len(),
            digits == s@.skip(from as int),
            number(s@, max as int) == (match digits_value(digits) {
                Some(n) if digits.len() > 0 && n <= max => Some(n),
                _ => None,
            }),
            digits_value(digits.take(i - from)) == Some(value as int),
            value <= max,
    {
        let c = x[i];
        assert(digits.take(i + 1 - from).drop_last() =~= digits.take(i - from));
        assert(digits.take(i + 1 - from).last() == c);
        proof {
            lemma_digits_prefix(digits, i + 1 - from);
        }
        if c < '0' || c > '9' {
            return None;
        }
        let low: u64 = (c as u32 - '0' as u32) as u64;
        if value > max / 10 || low > max - 10 * value {
            return None;
        }
        value = 10 * value + low;
    }
    assert(digits.take(digits.len() as int) =~= digits);
    Some(value)
}

/// Where `c` last stands in `s`: -1 where it stands nowhere.
pub open spec fn last_position(s: Seq<char>, c: char) -> int
    decreases s.len(),
{
    if s.len() == 0 {
        -1
    } else if s.last() == c {
        s.len() - 1
    } else {
        last_position(s.drop_last(), c)
    }
}

/// What `last_position` gives: nothing after it is `c`, and it is `c` where there is one.
pub proof fn lemma_last_position(s: Seq<char>, c: char)
    ensures
        -1 <= last_position(s, c) < s.len(),
        forall|j: int| last_position(s, c) < j < s.len() ==> s[j] != c,
        last_position(s, c) >= 0 ==> s[last_position(s, c)] == c,
        s.contains(c) <==> last_position(s, c) >= 0,
    decreases s.len(),
{
    if s.len() > 0 && s.last() != c {
        lemma_last_position(s.drop_last(), c);
        assert forall|j: int| 0 <= j < s.len() - 1 implies s[j] == s.drop_last()[j] by {}
    }
}

/// An index after which `c` does not stand, and at which it stands, is its last position.
pub proof fn lemma_last_position_is(s: Seq<char>, c: char, i: int)
    requires
        0 <= i < s.len(),
        forall|j: int| i < j < s.len() ==> s[j] != c,
        s[i] == c,
    ensures
        last_position(s, c) == i,
{
    lemma_last_position(s, c);
    let p = last_position(s, c);
    if p < i {
        assert(s[i] != c);
    }
    if i < p {
        assert(s[p] != c);
    }
}

/// What stands on either side of the last `c` in `s`.
pub open spec fn last_halves(s: Seq<char>, c: char) -> Option<(Seq<char>, Seq<char>)> {
    let p = last_position(s, c);
    if p >= 0 {
        Some((s.take(p), s.skip(p + 1)))
    } else {
        None
    }
}

/// What stands on either side of the last `c` in `s`.
pub fn rsplit_once(s: &str, c: char) -> (r: Option<(String, String)>)
    ensures
        pair_views(r) == last_halves(s@, c),
{
    let x = chars_of(s);
    let mut i: usize = x.len();
    while i > 0 && x[i - 1] != c
        invariant
            x@ == s@,
            i <= x@.len(),
            forall|j: int| i <= j < x@.len() ==> s@[j] != c,
        decreases i,
    {
        i -= 1;
    }
    proof {
        lemma_last_position(s@, c);
    }
    if i == 0 {
        return None;
    }
    proof {
        lemma_last_position_is(s@, c, i - 1);
    }
    let a = part(x.as_slice(), 0, i - 1);
    let b = part(x.as_slice(), i, x.len());
    assert(s@.subrange(0, i - 1) =~= s@.take(i - 1));
    assert(s@.subrange(i as int, s@.len() as int) =~= s@.skip(i as int));
    Some((text_of(a.as_slice()), text_of(b.as_slice())))
}

/// A first piece without `c`, `c`, and the rest: the pieces are that piece and those of the rest.
pub proof fn lemma_pieces_step(a: Seq<char>, c: char, rest: Seq<char>)
    requires
        !a.contains(c),
    ensures
        pieces(a + seq![c] + rest, c) == seq![a] + pieces(rest, c),
{
    let s = a + seq![c] + rest;
    assert forall|j: int| 0 <= j < a.len() implies s[j] != c by {
        assert(a[j] == s[j]);
        assert(a.contains(a[j]));
    }
    lemma_position_is(s, c, a.len() as int);
    assert(s.take(a.len() as int) =~= a);
    assert(s.skip(a.len() as int + 1) =~= rest);
}

/// A text without `c` is one piece.
pub proof fn lemma_pieces_end(a: Seq<char>, c: char)
    requires
        !a.contains(c),
    ensures
        pieces(a, c) == seq![a],
{
    lemma_position(a, c);
}

/// A first half without `c`, `c`, and the rest: those are its halves.
pub proof fn lemma_halves(a: Seq<char>, c: char, rest: Seq<char>)
    requires
        !a.contains(c),
    ensures
        halves(a + seq![c] + rest, c) == Some((a, rest)),
{
    let s = a + seq![c] + rest;
    assert forall|j: int| 0 <= j < a.len() implies s[j] != c by {
        assert(a[j] == s[j]);
        assert(a.contains(a[j]));
    }
    lemma_position_is(s, c, a.len() as int);
    assert(s.take(a.len() as int) =~= a);
    assert(s.skip(a.len() as int + 1) =~= rest);
}

/// A first half, `c`, and a rest without `c`: those are its last halves.
pub proof fn lemma_last_halves(a: Seq<char>, c: char, rest: Seq<char>)
    requires
        !rest.contains(c),
    ensures
        last_halves(a + seq![c] + rest, c) == Some((a, rest)),
{
    let s = a + seq![c] + rest;
    assert forall|j: int| a.len() < j < s.len() implies s[j] != c by {
        assert(rest[j - a.len() - 1] == s[j]);
        assert(rest.contains(rest[j - a.len() - 1]));
    }
    lemma_last_position_is(s, c, a.len() as int);
    assert(s.take(a.len() as int) =~= a);
    assert(s.skip(a.len() as int + 1) =~= rest);
}

/// The order of two texts of one length is that of what they begin.
pub proof fn lemma_before_extends(a: Seq<char>, b: Seq<char>, x: Seq<char>, y: Seq<char>)
    requires
        a.len() == b.len(),
        before(a, b),
    ensures
        before(a + x, b + y),
    decreases a.len(),
{
    assert((a + x)[0] == a[0]);
    assert((b + y)[0] == b[0]);
    if a[0] == b[0] {
        lemma_before_extends(a.skip(1), b.skip(1), x, y);
        assert((a + x).skip(1) =~= a.skip(1) + x);
        assert((b + y).skip(1) =~= b.skip(1) + y);
    }
}

/// The order of two texts is that of what stands behind one beginning.
pub proof fn lemma_before_behind(head: Seq<char>, x: Seq<char>, y: Seq<char>)
    ensures
        before(head + x, head + y) == before(x, y),
{
    let n = head.len() as int;
    assert((head + x).take(n) =~= head);
    assert((head + y).take(n) =~= head);
    lemma_before_skip(head + x, head + y, n);
    assert((head + x).skip(n) =~= x);
    assert((head + y).skip(n) =~= y);
}

/// `s` without the run of `c` at its end.
pub open spec fn without_trailing(s: Seq<char>, c: char) -> Seq<char>
    decreases s.len(),
{
    if s.len() > 0 && s.last() == c {
        without_trailing(s.drop_last(), c)
    } else {
        s
    }
}

/// `s` without the run of `c` at its end.
pub fn trim_end_char(s: &str, c: char) -> (r: String)
    ensures
        r@ == without_trailing(s@, c),
{
    let x = chars_of(s);
    let mut n: usize = x.len();
    assert(s@.take(s@.len() as int) =~= s@);
    while n > 0 && x[n - 1] == c
        invariant
            x@ == s@,
            n <= x@.len(),
            without_trailing(s@, c) == without_trailing(s@.take(n as int), c),
        decreases n,
    {
        assert(s@.take(n as int).drop_last() =~= s@.take(n - 1));
        n -= 1;
    }
    let kept = part(x.as_slice(), 0, n);
    assert(s@.subrange(0, n as int) =~= s@.take(n as int));
    text_of(kept.as_slice())
}

/// Whether a line ends in this character.
pub open spec fn line_end(c: char) -> bool {
    c == '\r' || c == '\n'
}

/// `s` without the line ends at its end.
pub open spec fn without_line_ends(s: Seq<char>) -> Seq<char>
    decreases s.len(),
{
    if s.len() > 0 && line_end(s.last()) {
        without_line_ends(s.drop_last())
    } else {
        s
    }
}

/// `s` without the line ends at its end.
pub fn trim_line_ends(s: &str) -> (r: String)
    ensures
        r@ == without_line_ends(s@),
{
    let x = chars_of(s);
    let mut n: usize = x.len();
    assert(s@.take(s@.len() as int) =~= s@);
    while n > 0 && (x[n - 1] == '\r' || x[n - 1] == '\n')
        invariant
            x@ == s@,
            n <= x@.len(),
            without_line_ends(s@) == without_line_ends(s@.take(n as int)),
        decreases n,
    {
        assert(s@.take(n as int).drop_last() =~= s@.take(n - 1));
        n -= 1;
    }
    let kept = part(x.as_slice(), 0, n);
    assert(s@.subrange(0, n as int) =~= s@.take(n as int));
    text_of(kept.as_slice())
}

/// A text is at least one piece.
pub proof fn lemma_pieces_nonempty(s: Seq<char>, c: char)
    ensures
        pieces(s, c).len() > 0,
{
}

/// Whether a character is white space, as Unicode's `White_Space` has it.
pub open spec fn white(c: char) -> bool {
    let n = c as int;
    (9 <= n <= 13) || n == 32 || n == 0x85 || n == 0xa0 || n == 0x1680 || (0x2000 <= n <= 0x200a)
        || n == 0x2028 || n == 0x2029 || n == 0x202f || n == 0x205f || n == 0x3000
}

/// `s` without the white space at its start.
pub open spec fn trimmed_start(s: Seq<char>) -> Seq<char>
    decreases s.len(),
{
    if s.len() > 0 && white(s[0]) {
        trimmed_start(s.skip(1))
    } else {
        s
    }
}

/// `s` without the white space at its end.
pub open spec fn trimmed_end(s: Seq<char>) -> Seq<char>
    decreases s.len(),
{
    if s.len() > 0 && white(s.last()) {
        trimmed_end(s.drop_last())
    } else {
        s
    }
}

/// `s` without the white space around it.
pub open spec fn trimmed(s: Seq<char>) -> Seq<char> {
    trimmed_end(trimmed_start(s))
}

/// Whether a character is white space.
pub fn is_white(c: char) -> (r: bool)
    ensures
        r == white(c),
{
    let n: u32 = c as u32;
    (9 <= n && n <= 13) || n == 32 || n == 0x85 || n == 0xa0 || n == 0x1680 || (0x2000 <= n && n
        <= 0x200a) || n == 0x2028 || n == 0x2029 || n == 0x202f || n == 0x205f || n == 0x3000
}

/// `s` without the white space around it.
pub fn trim(s: &str) -> (r: String)
    ensures
        r@ == trimmed(s@),
{
    let x = chars_of(s);
    let mut from: usize = 0;
    assert(s@.skip(0) =~= s@);
    while from < x.len() && is_white(x[from])
        invariant
            x@ == s@,
            from <= x@.len(),
            trimmed_start(s@) == trimmed_start(s@.skip(from as int)),
        decreases x@.len() - from,
    {
        assert(s@.skip(from as int).skip(1) =~= s@.skip(from + 1));
        from += 1;
    }
    let ghost rest = s@.skip(from as int);
    let mut to: usize = x.len();
    assert(rest.take(rest.len() as int) =~= rest);
    while to > from && is_white(x[to - 1])
        invariant
            x@ == s@,
            from <= to <= x@.len(),
            rest == s@.skip(from as int),
            trimmed_end(rest) == trimmed_end(rest.take(to - from)),
        decreases to,
    {
        assert(rest.take(to - from).last() == x@[to - 1]);
        assert(rest.take(to - from).drop_last() =~= rest.take(to - from - 1));
        to -= 1;
    }
    proof {
        if to > from {
            assert(rest.take(to - from).last() == x@[to - 1]);
        }
        assert(s@.subrange(from as int, to as int) =~= rest.take(to - from));
    }
    text_of(part(x.as_slice(), from, to).as_slice())
}

/// An ASCII capital as its small letter, and any other character as itself.
pub open spec fn lower(c: char) -> char {
    if 'A' <= c <= 'Z' {
        (c as int + 32) as char
    } else {
        c
    }
}

/// Whether two texts differ at most in the case of ASCII letters.
pub open spec fn alike(a: Seq<char>, b: Seq<char>) -> bool {
    a.len() == b.len() && forall|i: int| 0 <= i < a.len() ==> #[trigger] lower(a[i]) == lower(b[i])
}

fn to_lower(c: char) -> (r: char)
    ensures
        r == lower(c),
{
    if 'A' <= c && c <= 'Z' {
        (c as u8 + 32) as char
    } else {
        c
    }
}

/// Whether two texts differ at most in the case of ASCII letters.
pub fn same_ignoring_case(a: &str, b: &str) -> (r: bool)
    ensures
        r == alike(a@, b@),
{
    let x = chars_of(a);
    let y = chars_of(b);
    if x.len() != y.len() {
        return false;
    }
    for i in 0..x.len()
        invariant
            x@ == a@,
            y@ == b@,
            x@.len() == y@.len(),
            forall|j: int| 0 <= j < i ==> #[trigger] lower(a@[j]) == lower(b@[j]),
    {
        if to_lower(x[i]) != to_lower(y[i]) {
            assert(lower(a@[i as int]) != lower(b@[i as int]));
            return false;
        }
    }
    true
}

/// A text that neither begins nor ends with white space is trimmed to itself.
pub proof fn lemma_trimmed_is(s: Seq<char>)
    requires
        s.len() > 0 ==> !white(s[0]) && !white(s.last()),
    ensures
        trimmed(s) == s,
{
}

/// Joining puts what stands between behind the first part, and then joins the rest.
pub proof fn lemma_joined_front(first: Seq<char>, rest: Seq<Seq<char>>, between: Seq<char>)
    requires
        rest.len() > 0,
    ensures
        joined(seq![first] + rest, between) == first + between + joined(rest, between),
    decreases rest.len(),
{
    let all = seq![first] + rest;
    assert(all.last() == rest.last());
    assert(all.drop_last() =~= seq![first] + rest.drop_last());
    if rest.len() == 1 {
        assert(all.drop_last() =~= seq![first]);
        assert(joined(all.drop_last(), between) == first);
    } else {
        lemma_joined_front(first, rest.drop_last(), between);
        assert(joined(all, between) =~= first + between + joined(rest, between));
    }
}

/// The pieces of a text, joined by what they were cut at, are the text; and none of them holds it.
pub proof fn pieces_join_back(s: Seq<char>, c: char)
    ensures
        joined(pieces(s, c), seq![c]) == s,
        forall|i: int| 0 <= i < pieces(s, c).len() ==> !(#[trigger] pieces(s, c)[i]).contains(c),
    decreases s.len(),
{
    let p = position(s, c);
    lemma_position(s, c);
    if p < s.len() {
        let rest = s.skip(p + 1);
        pieces_join_back(rest, c);
        lemma_pieces_nonempty(rest, c);
        lemma_joined_front(s.take(p), pieces(rest, c), seq![c]);
        assert(s =~= s.take(p) + seq![c] + rest);
        assert forall|i: int| 0 <= i < pieces(s, c).len() implies !(#[trigger] pieces(
            s,
            c,
        )[i]).contains(c) by {
            if i > 0 {
                assert(pieces(s, c)[i] == pieces(rest, c)[i - 1]);
            }
        }
    }
}

/// One more piece behind a text is one more piece of it.
pub proof fn lemma_pieces_push(s: Seq<char>, c: char, last: Seq<char>)
    requires
        !last.contains(c),
    ensures
        pieces(s + seq![c] + last, c) == pieces(s, c).push(last),
    decreases s.len(),
{
    let p = position(s, c);
    lemma_position(s, c);
    if p < s.len() {
        let rest = s.skip(p + 1);
        lemma_pieces_push(rest, c, last);
        assert(s + seq![c] + last =~= s.take(p) + seq![c] + (rest + seq![c] + last));
        lemma_pieces_step(s.take(p), c, rest + seq![c] + last);
        assert(seq![s.take(p)] + pieces(rest, c).push(last) =~= (seq![s.take(p)] + pieces(
            rest,
            c,
        )).push(last));
    } else {
        lemma_pieces_step(s, c, last);
        lemma_pieces_end(last, c);
        assert(seq![s] + seq![last] =~= seq![s].push(last));
    }
}

proof fn lemma_decimal_digits(n: int)
    requires
        0 <= n,
    ensures
        decimal(n).len() > 0,
        digits_value(decimal(n)) == Some(n),
        digit_value(decimal(n)[0]) is Some,
    decreases n,
{
    let d = decimal(n);
    assert(d.last() == digit_char(n % 10));
    assert(digit_value(d.last()) == Some(n % 10));
    if n < 10 {
        assert(d.drop_last() =~= Seq::<char>::empty());
        assert(digits_value(d.drop_last()) == Some(0int));
    } else {
        lemma_decimal_digits(n / 10);
        assert(d.drop_last() =~= decimal(n / 10));
        assert(d[0] == decimal(n / 10)[0]);
    }
}

/// A number reads back as it was written, with or without a plus sign before it, and exactly where
/// it is within the bound.
pub proof fn a_number_reads_back(n: int, max: int)
    requires
        0 <= n,
    ensures
        n <= max ==> number(decimal(n), max) == Some(n) && number(seq!['+'] + decimal(n), max)
            == Some(n),
        n > max ==> number(decimal(n), max) is None && number(seq!['+'] + decimal(n), max) is None,
{
    lemma_decimal_digits(n);
    assert((seq!['+'] + decimal(n)).skip(1) =~= decimal(n));
}

proof fn lemma_trimmed_start(s: Seq<char>) -> (n: int)
    ensures
        0 <= n <= s.len(),
        trimmed_start(s) == s.skip(n),
        forall|i: int| 0 <= i < n ==> white(#[trigger] s[i]),
        n < s.len() ==> !white(s[n]),
    decreases s.len(),
{
    if s.len() > 0 && white(s[0]) {
        let n = lemma_trimmed_start(s.skip(1));
        assert(s.skip(1).skip(n) =~= s.skip(n + 1));
        assert forall|i: int| 0 <= i < n + 1 implies white(#[trigger] s[i]) by {
            if i > 0 {
                assert(s.skip(1)[i - 1] == s[i]);
            }
        }
        n + 1
    } else {
        assert(s.skip(0) =~= s);
        0
    }
}

proof fn lemma_trimmed_end(s: Seq<char>) -> (n: int)
    ensures
        0 <= n <= s.len(),
        trimmed_end(s) == s.take(n),
        forall|i: int| n <= i < s.len() ==> white(#[trigger] s[i]),
        n > 0 ==> !white(s[n - 1]),
    decreases s.len(),
{
    if s.len() > 0 && white(s.last()) {
        let n = lemma_trimmed_end(s.drop_last());
        assert(s.drop_last().take(n) =~= s.take(n));
        assert forall|i: int| n <= i < s.len() implies white(#[trigger] s[i]) by {
            if i < s.len() - 1 {
                assert(s.drop_last()[i] == s[i]);
            }
        }
        n
    } else {
        assert(s.take(s.len() as int) =~= s);
        s.len() as int
    }
}

/// Trimming takes white space off both ends and nothing else: what is left is a part of the text,
/// neither begins nor ends in white space, and all that was taken off is white space.
pub proof fn trimming_takes_white_space_only(s: Seq<char>) -> (part: (int, int))
    ensures
        0 <= part.0 <= part.1 <= s.len(),
        trimmed(s) == s.subrange(part.0, part.1),
        forall|i: int| 0 <= i < part.0 || part.1 <= i < s.len() ==> white(#[trigger] s[i]),
        trimmed(s).len() > 0 ==> !white(trimmed(s)[0]) && !white(trimmed(s).last()),
{
    let from = lemma_trimmed_start(s);
    let rest = s.skip(from);
    let n = lemma_trimmed_end(rest);
    assert(rest.take(n) =~= s.subrange(from, from + n));
    assert forall|i: int| 0 <= i < from || from + n <= i < s.len() implies white(
        #[trigger] s[i],
    ) by {
        if i >= from + n {
            assert(rest[i - from] == s[i]);
        }
    }
    if n > 0 {
        assert(rest[0] == s[from]);
        assert(trimmed(s)[0] == s[from]);
        assert(trimmed(s).last() == rest[n - 1]);
    }
    (from, from + n)
}

/// Taking the line ends off a text leaves everything before them, and no line end at its end.
pub proof fn only_line_ends_are_taken_off(s: Seq<char>) -> (n: int)
    ensures
        0 <= n <= s.len(),
        without_line_ends(s) == s.take(n),
        forall|i: int| n <= i < s.len() ==> (#[trigger] s[i] == '\r' || s[i] == '\n'),
        n > 0 ==> s[n - 1] != '\r' && s[n - 1] != '\n',
    decreases s.len(),
{
    if s.len() > 0 && line_end(s.last()) {
        let n = only_line_ends_are_taken_off(s.drop_last());
        assert(s.drop_last().take(n) =~= s.take(n));
        assert forall|i: int| n <= i < s.len() implies (#[trigger] s[i] == '\r' || s[i]
            == '\n') by {
            if i < s.len() - 1 {
                assert(s.drop_last()[i] == s[i]);
            }
        }
        n
    } else {
        assert(s.take(s.len() as int) =~= s);
        s.len() as int
    }
}

/// A text begins and ends with what it was put together of, and what is left without either is the
/// other; without a part that is not there nothing is left.
pub proof fn parts_come_apart(a: Seq<char>, b: Seq<char>)
    ensures
        begins(a + b, a),
        ends(a + b, b),
        after_prefix(a + b, a) == Some(b),
        before_suffix(a + b, b) == Some(a),
        after_prefix(b, a) matches Some(rest) ==> b == a + rest,
        before_suffix(b, a) matches Some(rest) ==> b == rest + a,
        begins(b, a) <==> after_prefix(b, a) is Some,
        ends(b, a) <==> before_suffix(b, a) is Some,
{
    let s = a + b;
    assert(s.take(a.len() as int) =~= a);
    assert(s.skip(a.len() as int) =~= b);
    assert(s.skip(s.len() - b.len()) =~= b);
    assert(s.take(s.len() - b.len()) =~= a);
    if begins(b, a) {
        assert(b =~= b.take(a.len() as int) + b.skip(a.len() as int));
    }
    if ends(b, a) {
        assert(b =~= b.take(b.len() - a.len()) + b.skip(b.len() - a.len()));
    }
}

/// Taking a character off the end of a text takes off all of them there, and nothing else.
pub proof fn every_trailing_one_is_taken_off(s: Seq<char>, c: char) -> (n: int)
    ensures
        0 <= n <= s.len(),
        without_trailing(s, c) == s.take(n),
        forall|i: int| n <= i < s.len() ==> #[trigger] s[i] == c,
        n > 0 ==> s[n - 1] != c,
    decreases s.len(),
{
    if s.len() > 0 && s.last() == c {
        let n = every_trailing_one_is_taken_off(s.drop_last(), c);
        assert(s.drop_last().take(n) =~= s.take(n));
        assert forall|i: int| n <= i < s.len() implies #[trigger] s[i] == c by {
            if i < s.len() - 1 {
                assert(s.drop_last()[i] == s[i]);
            }
        }
        n
    } else {
        assert(s.take(s.len() as int) =~= s);
        s.len() as int
    }
}

proof fn lemma_digits_are_digits(s: Seq<char>)
    ensures
        digits_value(s) is Some <==> forall|i: int|
            0 <= i < s.len() ==> '0' <= #[trigger] s[i] <= '9',
    decreases s.len(),
{
    if s.len() > 0 {
        let head = s.drop_last();
        lemma_digits_are_digits(head);
        assert(s[s.len() - 1] == s.last());
        assert(forall|i: int| 0 <= i < head.len() ==> head[i] == #[trigger] s[i]);
        if digits_value(s) is Some {
            assert forall|i: int| 0 <= i < s.len() implies '0' <= #[trigger] s[i] <= '9' by {
                if i < head.len() {
                    assert(head[i] == s[i]);
                }
            }
        } else if forall|i: int| 0 <= i < s.len() ==> '0' <= #[trigger] s[i] <= '9' {
            assert forall|i: int| 0 <= i < head.len() implies '0' <= #[trigger] head[i] <= '9' by {
                assert(head[i] == s[i]);
            }
            assert(digit_value(s.last()) is Some);
        }
    }
}

proof fn lemma_leading_zero(s: Seq<char>)
    ensures
        digits_value(seq!['0'] + s) == digits_value(s),
    decreases s.len(),
{
    let longer = seq!['0'] + s;
    if s.len() == 0 {
        assert(longer.drop_last() =~= s);
        assert(longer.last() == '0');
    } else {
        lemma_leading_zero(s.drop_last());
        assert(longer.drop_last() =~= seq!['0'] + s.drop_last());
        assert(longer.last() == s.last());
    }
}

/// A number is digits and nothing else, at least one, with at most one plus sign before them; zeros
/// before the others change nothing.
pub proof fn a_number_is_digits(s: Seq<char>, max: int)
    requires
        s.len() > 0,
        s[0] != '+',
    ensures
        number(s, max) is Some ==> forall|i: int| 0 <= i < s.len() ==> '0' <= #[trigger] s[i] <= '9',
        number(seq!['0'] + s, max) == number(s, max),
        number(seq!['+'] + s, max) == number(s, max),
        number(seq!['+', '+'] + s, max) is None,
        number(Seq::empty(), max) is None,
        number(seq!['+'], max) is None,
{
    lemma_digits_are_digits(s);
    lemma_leading_zero(s);
    assert((seq!['0'] + s)[0] == '0');
    assert((seq!['+'] + s).skip(1) =~= s);
    assert((seq!['+', '+'] + s).skip(1) =~= seq!['+'] + s);
    lemma_digits_are_digits(seq!['+'] + s);
    assert((seq!['+'] + s)[0] == '+');
    assert(seq!['+'].skip(1) =~= Seq::<char>::empty());
}

}
