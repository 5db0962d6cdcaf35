//! Sets of texts, kept sorted.

use vstd::prelude::*;

use crate::text;

verus! {

/// A set of texts, each held once and in order.
#[derive(Debug, PartialEq, Eq)]
pub struct Names {
    names: Vec<String>,
}

/// Whether each text stands before the next.
pub open spec fn in_order(names: Seq<Seq<char>>) -> bool {
    forall|i: int, j: int|
        0 <= i < j < names.len() ==> text::before(#[trigger] names[i], #[trigger] names[j])
}

impl View for Names {
    type V = Set<Seq<char>>;

    closed spec fn view(&self) -> Set<Seq<char>> {
        text::views(self.names@).to_set()
    }
}

impl Names {
    #[verifier::type_invariant]
    spec fn sorted(self) -> bool {
        in_order(text::views(self.names@))
    }

    /// The texts in order.
    pub closed spec fn listed(&self) -> Seq<Seq<char>> {
        text::views(self.names@)
    }

    /// The set of nothing.
    pub fn new() -> (r: Names)
        ensures
            r@ == Set::<Seq<char>>::empty(),
            r.listed().len() == 0,
    {
        let r = Names { names: Vec::new() };
        assert(r@ =~= Set::<Seq<char>>::empty());
        r
    }

    /// The set of some texts.
    pub fn of(names: &[String]) -> (r: Names)
        ensures
            r@ == text::views(names@).to_set(),
    {
        let mut r = Names::new();
        assert(text::views(names@).take(0).to_set() =~= Set::<Seq<char>>::empty());
        for i in 0..names.len()
            invariant
                r@ == text::views(names@).take(i as int).to_set(),
        {
            r.insert(names[i].as_str());
            proof {
                let all = text::views(names@);
                assert(all.take(i + 1) =~= all.take(i as int).push(names@[i as int]@));
                lemma_push_to_set(all.take(i as int), names@[i as int]@);
            }
        }
        assert(text::views(names@).take(names@.len() as int) =~= text::views(names@));
        r
    }

    /// Put a text in.
    pub fn insert(&mut self, name: &str)
        ensures
            final(self)@ == old(self)@.insert(name@),
    {
        proof {
            use_type_invariant(&*self);
        }
        let ghost before = text::views(self.names@);
        let mut at: usize = 0;
        while at < self.names.len() && text::precedes(self.names[at].as_str(), name)
            invariant
                at <= self.names@.len(),
                forall|i: int|
                    0 <= i < at ==> text::before(#[trigger] text::views(self.names@)[i], name@),
            decreases self.names@.len() - at,
        {
            assert(text::views(self.names@)[at as int] == self.names@[at as int]@);
            at += 1;
        }
        if at < self.names.len() {
            assert(before[at as int] == self.names@[at as int]@);
            if text::same(self.names[at].as_str(), name) {
                proof {
                    assert(before.contains(name@)) by {
                        assert(before[at as int] == name@);
                    }
                    assert(self@.insert(name@) =~= self@);
                }
                return ;
            }
        }
        let mut names: Vec<String> = Vec::new();
        std::mem::swap(&mut names, &mut self.names);
        names.insert(at, String::from_str(name));
        proof {
            let after = text::views(names@);
            assert(after =~= before.insert(at as int, name@));
            if at < before.len() {
                text::lemma_before_total(before[at as int], name@);
                assert(text::before(name@, before[at as int]));
            }
            assert forall|i: int, j: int| 0 <= i < j < after.len() implies text::before(
                #[trigger] after[i],
                #[trigger] after[j],
            ) by {
                if i < at && j == at {
                    assert(after[i] == before[i]);
                } else if i < at && j > at {
                    assert(after[i] == before[i]);
                    assert(after[j] == before[j - 1]);
                } else if i == at {
                    assert(after[j] == before[j - 1]);
                    if j - 1 > at {
                        text::lemma_before_transitive(
                            name@,
                            before[at as int],
                            before[j - 1],
                        );
                    }
                } else if i > at {
                    assert(after[i] == before[i - 1]);
                    assert(after[j] == before[j - 1]);
                } else {
                    assert(after[i] == before[i]);
                    assert(after[j] == before[j]);
                }
            }
            lemma_insert_to_set(before, at as int, name@);
        }
        self.names = names;
    }

    /// Whether a text is in the set.
    pub fn contains(&self, name: &str) -> (r: bool)
        ensures
            r == self@.contains(name@),
    {
        let ghost words = text::views(self.names@);
        for i in 0..self.names.len()
            invariant
                words == text::views(self.names@),
                forall|j: int| 0 <= j < i ==> #[trigger] words[j] != name@,
        {
            assert(words[i as int] == self.names@[i as int]@);
            if text::same(self.names[i].as_str(), name) {
                assert(words.contains(name@));
                return true;
            }
        }
        false
    }

    /// How many there are.
    pub fn len(&self) -> (r: usize)
        ensures
            self@.finite(),
            r == self@.len(),
            r == self.listed().len(),
            in_order(self.listed()),
            self@ == self.listed().to_set(),
    {
        proof {
            use_type_invariant(self);
            let words = text::views(self.names@);
            assert(words.no_duplicates()) by {
                assert forall|i: int, j: int|
                    0 <= i < words.len() && 0 <= j < words.len() && i != j implies words[i]
                    != words[j] by {
                    text::lemma_before_irreflexive(words[i]);
                    if i < j {
                        assert(text::before(words[i], words[j]));
                    } else {
                        assert(text::before(words[j], words[i]));
                    }
                }
            }
            words.unique_seq_to_set();
        }
        self.names.len()
    }

    /// The text at a place.
    pub fn at(&self, i: usize) -> (r: &str)
        requires
            i < self.listed().len(),
        ensures
            r@ == self.listed()[i as int],
    {
        self.names[i].as_str()
    }
}

impl Clone for Names {
    fn clone(&self) -> (r: Self)
        ensures
            r@ == self@,
    {
        let r = Names::of(self.names.as_slice());
        r
    }
}

proof fn lemma_push_to_set(s: Seq<Seq<char>>, x: Seq<char>)
    ensures
        s.push(x).to_set() == s.to_set().insert(x),
{
    let t = s.push(x);
    assert forall|y: Seq<char>| t.to_set().contains(y) <==> s.to_set().insert(x).contains(y) by {
        if t.to_set().contains(y) {
            let i = choose|i: int| 0 <= i < t.len() && t[i] == y;
            if i < s.len() {
                assert(s[i] == y);
            }
        }
        if s.to_set().contains(y) {
            let i = choose|i: int| 0 <= i < s.len() && s[i] == y;
            assert(t[i] == y);
        }
        if y == x {
            assert(t[s.len() as int] == y);
        }
    }
    assert(t.to_set() =~= s.to_set().insert(x));
}

proof fn lemma_insert_to_set(s: Seq<Seq<char>>, at: int, x: Seq<char>)
    requires
        0 <= at <= s.len(),
    ensures
        s.insert(at, x).to_set() == s.to_set().insert(x),
{
    let t = s.insert(at, x);
    assert forall|y: Seq<char>| t.to_set().contains(y) <==> s.to_set().insert(x).contains(y) by {
        if t.to_set().contains(y) {
            let i = choose|i: int| 0 <= i < t.len() && t[i] == y;
            if i < at {
                assert(s[i] == y);
            } else if i > at {
                assert(s[i - 1] == y);
            }
        }
        if s.to_set().contains(y) {
            let i = choose|i: int| 0 <= i < s.len() && s[i] == y;
            if i < at {
                assert(t[i] == y);
            } else {
                assert(t[i + 1] == y);
            }
        }
        if y == x {
            assert(t[at] == y);
        }
    }
    assert(t.to_set() =~= s.to_set().insert(x));
}

}
