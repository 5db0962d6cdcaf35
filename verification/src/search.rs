//! Texts within texts: where one stands in another, what lies between, lines and words.

use vstd::prelude::*;

use crate::text;

verus! {

/// Where `needle` first stands in `s`; below zero where it nowhere does.
pub open spec fn place_of(s: Seq<char>, needle: Seq<char>) -> int
    decreases s.len(),
{
    if text::stands_at(s, needle, 0) {
        0
    } else if s.len() == 0 {
        -1
    } else {
        let behind = place_of(s.skip(1), needle);
        if behind < 0 {
            -1
        } else {
            behind + 1
        }
    }
}

/// What `place_of` is: the first place, or that there is none.
pub proof fn lemma_place(s: Seq<char>, needle: Seq<char>)
    ensures
        place_of(s, needle) >= 0 ==> text::stands_at(s, needle, place_of(s, needle)),
        forall|i: int|
            0 <= i && (place_of(s, needle) < 0 || i < place_of(s, needle))
                ==> !#[trigger] text::stands_at(s, needle, i),
    decreases s.len(),
{
    if !text::stands_at(s, needle, 0) && s.len() > 0 {
        let rest = s.skip(1);
        lemma_place(rest, needle);
        assert forall|i: int| 0 < i implies #[trigger] text::stands_at(s, needle, i)
            == text::stands_at(rest, needle, i - 1) by {
            if i + needle.len() <= s.len() {
                assert(s.subrange(i, i + needle.len()) =~= rest.subrange(
                    i - 1,
                    i - 1 + needle.len(),
                ));
            }
        }
        let behind = place_of(rest, needle);
        if behind >= 0 {
            assert(text::stands_at(s, needle, behind + 1));
        }
        assert forall|i: int|
            0 <= i && (place_of(s, needle) < 0 || i < place_of(s, needle)) implies !#[trigger] text::stands_at(
            s,
            needle,
            i,
        ) by {
            if i > 0 {
                assert(!text::stands_at(rest, needle, i - 1));
            }
        }
    }
}

/// The first place where `needle` stands in `s` from `from` on.
fn find_from(s: &[char], needle: &[char], from: usize) -> (r: Option<usize>)
    requires
        from <= s@.len(),
    ensures
        match r {
            Some(i) => from <= i && i + needle@.len() <= s@.len() && place_of(
                s@.skip(from as int),
                needle@,
            ) == i - from,
            None => place_of(s@.skip(from as int), needle@) < 0,
        },
{
    let ghost rest = s@.skip(from as int);
    let mut i: usize = from;
    assert(rest.skip(0) =~= rest);
    loop
        invariant
            from <= i <= s@.len(),
            rest == s@.skip(from as int),
            place_of(rest, needle@) < 0 <==> place_of(s@.skip(i as int), needle@) < 0,
            place_of(rest, needle@) >= 0 ==> place_of(rest, needle@) == i - from + place_of(
                s@.skip(i as int),
                needle@,
            ),
        decreases s@.len() - i,
    {
        let ghost here = s@.skip(i as int);
        proof {
            if i < s@.len() {
                assert(here.skip(1) =~= s@.skip(i + 1));
            }
            if i + needle@.len() <= s@.len() {
                assert(here.subrange(0, needle@.len() as int) =~= s@.subrange(
                    i as int,
                    i + needle@.len(),
                ));
            }
            assert(text::stands_at(here, needle@, 0) == text::stands_at(s@, needle@, i as int));
        }
        if text::at(s, needle, i) {
            return Some(i);
        }
        if i == s.len() {
            return None;
        }
        i += 1;
    }
}

/// What lies before and behind the first `needle` in `s`.
pub open spec fn halves_by(s: Seq<char>, needle: Seq<char>) -> Option<(Seq<char>, Seq<char>)> {
    let at = place_of(s, needle);
    if at < 0 {
        None
    } else {
        Some((s.take(at), s.skip(at + needle.len())))
    }
}

/// What lies before and behind the first `needle` in `s`.
pub fn split_once(s: &str, needle: &str) -> (r: Option<(String, String)>)
    ensures
        text::pair_views(r) == halves_by(s@, needle@),
{
    let x = text::chars_of(s);
    let y = text::chars_of(needle);
    assert(x@.skip(0) =~= x@);
    match find_from(x.as_slice(), y.as_slice(), 0) {
        None => None,
        Some(i) => {
            let length: usize = x.len();
            let before = text::text_of(text::part(x.as_slice(), 0, i).as_slice());
            let behind = text::text_of(
                text::part(x.as_slice(), i + y.len(), length).as_slice(),
            );
            assert(before@ =~= s@.take(i as int));
            assert(behind@ =~= s@.skip(i + needle@.len()));
            Some((before, behind))
        },
    }
}

/// The pieces of `s` between one `needle` and the next.
pub open spec fn pieces_by(s: Seq<char>, needle: Seq<char>) -> Seq<Seq<char>>
    decreases s.len(),
{
    let at = place_of(s, needle);
    if at < 0 || needle.len() == 0 || at + needle.len() > s.len() {
        seq![s]
    } else {
        seq![s.take(at)] + pieces_by(s.skip(at + needle.len()), needle)
    }
}

/// The pieces of `s` between one `needle` and the next.
pub fn split(s: &str, needle: &str) -> (r: Vec<String>)
    requires
        needle@.len() > 0,
    ensures
        text::views(r@) == pieces_by(s@, needle@),
        r@.len() > 0,
{
    let x = text::chars_of(s);
    let y = text::chars_of(needle);
    let length: usize = x.len();
    let mut r: Vec<String> = Vec::new();
    let mut from: usize = 0;
    assert(s@.skip(0) =~= s@);
    loop
        invariant
            x@ == s@,
            x@.len() == length,
            y@ == needle@,
            y@.len() > 0,
            from <= x@.len(),
            text::views(r@) + pieces_by(s@.skip(from as int), needle@) == pieces_by(s@, needle@),
        decreases x@.len() - from,
    {
        let ghost rest = s@.skip(from as int);
        let ghost before = r@;
        match find_from(x.as_slice(), y.as_slice(), from) {
            None => {
                let piece = text::text_of(text::part(x.as_slice(), from, x.len()).as_slice());
                r.push(piece);
                assert(piece@ =~= rest);
                assert(text::views(r@) =~= text::views(before) + seq![rest]);
                return r;
            },
            Some(i) => {
                let piece = text::text_of(text::part(x.as_slice(), from, i).as_slice());
                r.push(piece);
                proof {
                    assert(piece@ =~= rest.take(i - from));
                    assert(rest.skip(i - from + needle@.len()) =~= s@.skip(i + needle@.len()));
                    assert(text::views(r@) =~= text::views(before).push(piece@));
                    assert(text::views(r@) + pieces_by(s@.skip(i + needle@.len()), needle@)
                        =~= text::views(before) + pieces_by(rest, needle@));
                }
                from = i + y.len();
            },
        }
    }
}

/// How often `needle` stands in `s`, counted from the front and never overlapping.
pub open spec fn times_in(s: Seq<char>, needle: Seq<char>) -> int {
    pieces_by(s, needle).len() - 1
}

/// `with` before every character of `s` and behind the last.
pub open spec fn interleaved(s: Seq<char>, with: Seq<char>) -> Seq<char>
    decreases s.len(),
{
    if s.len() == 0 {
        with
    } else {
        interleaved(s.drop_last(), with) + seq![s.last()] + with
    }
}

/// `s` with `with` in place of every `needle`, from the front and never overlapping. An empty
/// needle stands before every character and behind the last.
pub open spec fn replaced(s: Seq<char>, needle: Seq<char>, with: Seq<char>) -> Seq<char> {
    if needle.len() == 0 {
        interleaved(s, with)
    } else {
        text::joined(pieces_by(s, needle), with)
    }
}

/// `s` with `with` in place of every `needle`: see `replaced`.
pub fn replace(s: &str, needle: &str, with: &str) -> (r: String)
    ensures
        r@ == replaced(s@, needle@, with@),
{
    if text::is_empty(needle) {
        let x = text::chars_of(s);
        let mut r = String::from_str(with);
        assert(s@.take(0) =~= Seq::<char>::empty());
        for i in 0..x.len()
            invariant
                x@ == s@,
                r@ == interleaved(s@.take(i as int), with@),
        {
            r.push(x[i]);
            r.append(with);
            assert(s@.take(i + 1).drop_last() =~= s@.take(i as int));
            assert(r@ =~= interleaved(s@.take(i as int), with@) + seq![s@[i as int]] + with@);
        }
        assert(s@.take(s@.len() as int) =~= s@);
        return r;
    }
    text::join(split(s, needle).as_slice(), with)
}

/// Where `needle` does not stand, nothing is replaced.
pub proof fn nothing_to_replace(s: Seq<char>, needle: Seq<char>, with: Seq<char>)
    requires
        needle.len() > 0,
        place_of(s, needle) < 0,
    ensures
        replaced(s, needle, with) == s,
{
    assert(pieces_by(s, needle) =~= seq![s]);
    reveal_with_fuel(text::joined, 2);
    assert(text::joined(seq![s], with) =~= s);
}

/// A line without the carriage return before its end.
pub open spec fn without_return(line: Seq<char>) -> Seq<char> {
    if line.len() > 0 && line.last() == '\r' {
        line.drop_last()
    } else {
        line
    }
}

/// The lines that pieces between line feeds make: each without the carriage return before its line
/// feed, and the last one, which no line feed ends, as it is and only where it is not empty.
pub open spec fn lines_in(pieces: Seq<Seq<char>>) -> Seq<Seq<char>>
    decreases pieces.len(),
{
    if pieces.len() == 0 {
        seq![]
    } else if pieces.len() == 1 {
        if pieces[0].len() == 0 {
            seq![]
        } else {
            seq![pieces[0]]
        }
    } else {
        seq![without_return(pieces[0])] + lines_in(pieces.skip(1))
    }
}

/// The lines of a text.
pub open spec fn lines_of(s: Seq<char>) -> Seq<Seq<char>> {
    lines_in(text::pieces(s, '\n'))
}

/// The lines of a text.
pub fn lines(s: &str) -> (r: Vec<String>)
    ensures
        text::views(r@) == lines_of(s@),
{
    let pieces = text::split(s, '\n');
    let ghost all = text::views(pieces@);
    let mut r: Vec<String> = Vec::new();
    assert(all.skip(0) =~= all);
    assert(text::views(r@) =~= seq![]);
    for i in 0..pieces.len()
        invariant
            all == text::views(pieces@),
            text::views(r@) + lines_in(all.skip(i as int)) == lines_in(all),
    {
        let ghost rest = all.skip(i as int);
        let ghost before = r@;
        assert(rest[0] == pieces@[i as int]@);
        assert(rest.skip(1) =~= all.skip(i + 1));
        if i + 1 == pieces.len() {
            if !text::is_empty(pieces[i].as_str()) {
                r.push(pieces[i].clone());
                assert(text::views(r@) =~= text::views(before) + seq![rest[0]]);
            }
            assert(lines_in(all.skip(i + 1)) =~= seq![]);
            assert(text::views(r@) + lines_in(all.skip(i + 1)) =~= text::views(before) + lines_in(
                rest,
            ));
        } else {
            let line = match text::strip_suffix(pieces[i].as_str(), "\r") {
                Some(line) => line,
                None => pieces[i].clone(),
            };
            proof {
                reveal_strlit("\r");
                let piece = pieces@[i as int]@;
                if text::before_suffix(piece, "\r"@) is Some {
                    assert(piece.skip(piece.len() - 1)[0] == piece.last());
                    assert(line@ =~= piece.drop_last());
                } else if piece.len() > 0 && piece.last() == '\r' {
                    assert(piece.skip(piece.len() - 1) =~= "\r"@);
                }
            }
            r.push(line);
            assert(text::views(r@) =~= text::views(before).push(line@));
            assert(text::views(r@) + lines_in(all.skip(i + 1)) =~= text::views(before) + lines_in(
                rest,
            ));
        }
    }
    assert(all.skip(pieces@.len() as int) =~= seq![]);
    assert(text::views(r@) =~= text::views(r@) + lines_in(all.skip(pieces@.len() as int)));
    r
}

/// How many characters the word at the head of a text has.
pub open spec fn word_length(s: Seq<char>) -> int
    decreases s.len(),
{
    if s.len() == 0 || text::white(s[0]) {
        0
    } else {
        1 + word_length(s.skip(1))
    }
}

proof fn lemma_word_length(s: Seq<char>)
    ensures
        0 <= word_length(s) <= s.len(),
        s.len() > 0 && !text::white(s[0]) ==> word_length(s) > 0,
    decreases s.len(),
{
    if s.len() > 0 && !text::white(s[0]) {
        lemma_word_length(s.skip(1));
    }
}

/// The words of a text: its runs of characters that are not white space.
pub open spec fn words_of(s: Seq<char>) -> Seq<Seq<char>>
    decreases s.len(),
{
    if s.len() == 0 {
        seq![]
    } else if text::white(s[0]) {
        words_of(s.skip(1))
    } else if word_length(s) <= 0 || word_length(s) > s.len() {
        seq![]
    } else {
        seq![s.take(word_length(s))] + words_of(s.skip(word_length(s)))
    }
}

/// The words of a text.
pub fn words(s: &str) -> (r: Vec<String>)
    ensures
        text::views(r@) == words_of(s@),
{
    let x = text::chars_of(s);
    let mut r: Vec<String> = Vec::new();
    let mut i: usize = 0;
    assert(s@.skip(0) =~= s@);
    assert(text::views(r@) =~= seq![]);
    while i < x.len()
        invariant
            x@ == s@,
            i <= x@.len(),
            text::views(r@) + words_of(s@.skip(i as int)) == words_of(s@),
        decreases x@.len() - i,
    {
        let ghost rest = s@.skip(i as int);
        if text::is_white(x[i]) {
            assert(rest.skip(1) =~= s@.skip(i + 1));
            i += 1;
        } else {
            let from: usize = i;
            let ghost before = r@;
            assert(rest.skip(0) =~= rest);
            while i < x.len() && !text::is_white(x[i])
                invariant
                    x@ == s@,
                    from <= i <= x@.len(),
                    rest == s@.skip(from as int),
                    word_length(rest) == i - from + word_length(rest.skip(i - from)),
                decreases x@.len() - i,
            {
                assert(rest.skip(i - from)[0] == x@[i as int]);
                assert(rest.skip(i - from).skip(1) =~= rest.skip(i + 1 - from));
                i += 1;
            }
            proof {
                if i < x@.len() {
                    assert(rest.skip(i - from)[0] == x@[i as int]);
                }
                assert(word_length(rest.skip(i - from)) == 0);
                lemma_word_length(rest);
                assert(word_length(rest) == i - from);
            }
            let word = text::text_of(text::part(x.as_slice(), from, i).as_slice());
            r.push(word);
            proof {
                assert(word@ =~= rest.take(i - from));
                assert(rest.skip(i - from) =~= s@.skip(i as int));
                assert(text::views(r@) =~= text::views(before).push(word@));
                assert(text::views(r@) + words_of(s@.skip(i as int)) =~= text::views(before)
                    + words_of(rest));
            }
        }
    }
    assert(s@.skip(i as int) =~= Seq::<char>::empty());
    assert(text::views(r@) =~= text::views(r@) + words_of(s@.skip(i as int)));
    r
}

/// `s` without the white space at its end.
pub fn trim_end(s: &str) -> (r: String)
    ensures
        r@ == text::trimmed_end(s@),
{
    let x = text::chars_of(s);
    let mut to: usize = x.len();
    assert(s@.take(s@.len() as int) =~= s@);
    while to > 0 && text::is_white(x[to - 1])
        invariant
            x@ == s@,
            to <= x@.len(),
            text::trimmed_end(s@) == text::trimmed_end(s@.take(to as int)),
        decreases to,
    {
        assert(s@.take(to as int).last() == x@[to - 1]);
        assert(s@.take(to as int).drop_last() =~= s@.take(to - 1));
        to -= 1;
    }
    proof {
        if to > 0 {
            assert(s@.take(to as int).last() == x@[to - 1]);
        }
        assert(s@.subrange(0, to as int) =~= s@.take(to as int));
    }
    text::text_of(text::part(x.as_slice(), 0, to).as_slice())
}

/// A text is cut at the first place where the needle stands, and nothing of it is lost: the two
/// halves and the needle are the text, and the needle stands nowhere before.
pub proof fn halves_join_back(s: Seq<char>, needle: Seq<char>, i: int)
    ensures
        halves_by(s, needle) matches Some((before, behind)) ==> s == before + needle + behind && (0
            <= i < before.len() ==> !text::stands_at(s, needle, i)),
        halves_by(s, needle) is None ==> !text::stands_at(s, needle, i),
{
    lemma_place(s, needle);
    if let Some((before, behind)) = halves_by(s, needle) {
        let at = place_of(s, needle);
        assert(s.subrange(at, at + needle.len()) == needle);
        assert(s =~= before + needle + behind);
    }
}

/// The pieces of a text, joined by what they were cut at, are the text.
pub proof fn pieces_join_back(s: Seq<char>, needle: Seq<char>)
    requires
        needle.len() > 0,
    ensures
        text::joined(pieces_by(s, needle), needle) == s,
        pieces_by(s, needle).len() == 1 <==> place_of(s, needle) < 0,
        pieces_by(s, needle).len() > 0,
    decreases s.len(),
{
    lemma_place(s, needle);
    let at = place_of(s, needle);
    if at >= 0 {
        let behind = s.skip(at + needle.len());
        pieces_join_back(behind, needle);
        text::lemma_joined_front(s.take(at), pieces_by(behind, needle), needle);
        assert(s.subrange(at, at + needle.len()) == needle);
        assert(s =~= s.take(at) + needle + behind);
    }
}

/// Replacing goes on to the end: the first place where the needle stands is replaced, what stands
/// before it stays, and behind it replacing begins anew.
pub proof fn replacing_goes_on(
    before: Seq<char>,
    needle: Seq<char>,
    behind: Seq<char>,
    with: Seq<char>,
)
    requires
        needle.len() > 0,
        forall|i: int|
            0 <= i < before.len() ==> !#[trigger] text::stands_at(
                before + needle + behind,
                needle,
                i,
            ),
    ensures
        replaced(before + needle + behind, needle, with) == before + with + replaced(
            behind,
            needle,
            with,
        ),
        times_in(before + needle + behind, needle) == 1 + times_in(behind, needle),
        halves_by(before + needle + behind, needle) == Some((before, behind)),
{
    let s = before + needle + behind;
    let at = before.len() as int;
    lemma_place(s, needle);
    assert(s.subrange(at, at + needle.len()) =~= needle);
    assert(text::stands_at(s, needle, at));
    assert(place_of(s, needle) == at) by {
        let found = place_of(s, needle);
        if found < 0 || at < found {
            assert(!text::stands_at(s, needle, at));
        }
        if 0 <= found < at {
            assert(!text::stands_at(s, needle, found));
        }
    }
    assert(s.take(at) =~= before);
    assert(s.skip(at + needle.len()) =~= behind);
    pieces_join_back(behind, needle);
    text::lemma_joined_front(before, pieces_by(behind, needle), with);
}

/// The lines of a text are what stands between its line feeds, each without a carriage return at
/// its end; a last line without a line feed is one too, and an empty one behind the last is not.
pub proof fn a_line_ends_at_its_feed(line: Seq<char>, rest: Seq<char>)
    requires
        !line.contains('\n'),
    ensures
        lines_of(line + seq!['\n'] + rest) == seq![without_return(line)] + lines_of(rest),
        line.len() > 0 ==> lines_of(line) == seq![line],
        lines_of(Seq::empty()) == Seq::<Seq<char>>::empty(),
        !(line.len() > 0 && line.last() == '\r') ==> without_return(line) == line,
        without_return(line + seq!['\r']) == line,
{
    text::lemma_pieces_step(line, '\n', rest);
    text::lemma_pieces_end(line, '\n');
    text::lemma_pieces_end(Seq::empty(), '\n');
    text::lemma_pieces_nonempty(rest, '\n');
    let pieces = seq![line] + text::pieces(rest, '\n');
    assert(pieces.skip(1) =~= text::pieces(rest, '\n'));
    assert(pieces[0] == line);
    assert((line + seq!['\r']).drop_last() =~= line);
}

proof fn lemma_word_is(word: Seq<char>, rest: Seq<char>)
    requires
        forall|i: int| 0 <= i < word.len() ==> !text::white(#[trigger] word[i]),
        rest.len() == 0 || text::white(rest[0]),
    ensures
        word_length(word + rest) == word.len(),
    decreases word.len(),
{
    let s = word + rest;
    if word.len() > 0 {
        assert(s[0] == word[0]);
        assert(s.skip(1) =~= word.skip(1) + rest);
        assert forall|i: int| 0 <= i < word.skip(1).len() implies !text::white(
            #[trigger] word.skip(1)[i],
        ) by {
            assert(word.skip(1)[i] == word[i + 1]);
        }
        lemma_word_is(word.skip(1), rest);
    } else if rest.len() > 0 {
        assert(s[0] == rest[0]);
    }
}

/// The words of a text are its runs between white space, in order; the white space itself is none.
pub proof fn a_word_ends_at_white_space(word: Seq<char>, rest: Seq<char>)
    requires
        word.len() > 0,
        forall|i: int| 0 <= i < word.len() ==> !text::white(#[trigger] word[i]),
        rest.len() == 0 || text::white(rest[0]),
    ensures
        words_of(word + rest) == seq![word] + words_of(rest),
        rest.len() > 0 ==> words_of(rest) == words_of(rest.skip(1)),
        words_of(Seq::empty()) == Seq::<Seq<char>>::empty(),
{
    let s = word + rest;
    lemma_word_is(word, rest);
    assert(s[0] == word[0]);
    assert(s.take(word.len() as int) =~= word);
    assert(s.skip(word.len() as int) =~= rest);
}

}
