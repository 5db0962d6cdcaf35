//! Which of the listed keys a run is about, past the prefix the server filters on. The pool, the
//! agent and the kind are segments of the key and sit after the id, so no literal prefix selects
//! them. Read off the key here, they still cost no download.

use vstd::prelude::*;

use crate::key;
use crate::key::{Kind, ObjectName};
use crate::text;
use crate::wire::agent::AgentId;
use crate::wire::pool;
use crate::wire::pool::PoolId;

verus! {

/// Which keys a run is about: what the server filters the listing on, and what this side selects
/// out of what came back.
pub struct Filters<'a> {
    /// The literal head of a key.
    pub prefix: &'a str,
    pub selection: &'a Selection,
    pub days: &'a Days,
}

/// The days a run is bounded to, each as the head of the keys filed on it.
#[derive(Debug, PartialEq, Eq)]
pub struct Days {
    /// The first day: the listing starts there.
    pub from: Option<String>,
    /// The last day: the walk stops behind it.
    pub until: Option<String>,
}

/// What a run keeps of the keys its prefix listed. Empty selects everything.
#[derive(Debug, PartialEq, Eq)]
pub struct Selection {
    pub pool: Option<PoolId>,
    pub agent: Option<AgentId>,
    pub kind: Option<Kind>,
}

/// What a selection is, over plain values.
pub struct Choice {
    pub pool: Option<Seq<u8>>,
    pub agent: Option<Seq<char>>,
    pub kind: Option<Kind>,
}

/// What a key is to a selection. `Unnameable` is its own answer rather than a `No`: it is not the
/// filters passing over an object but this build having no reading of the key at all.
#[derive(Debug, Clone, Copy, PartialEq, Eq, Structural)]
pub enum Selected {
    Yes,
    No,
    Unnameable,
}

impl View for Selection {
    type V = Choice;

    open spec fn view(&self) -> Choice {
        Choice {
            pool: match self.pool {
                Some(pool) => Some(pool@),
                None => None,
            },
            agent: match self.agent {
                Some(agent) => Some(agent@),
                None => None,
            },
            kind: self.kind,
        }
    }
}

impl Choice {
    /// Whether a name is among what is kept.
    pub open spec fn keeps(self, name: key::Name) -> bool {
        &&& self.pool matches Some(pool) ==> pool == name.pool
        &&& self.agent matches Some(agent) ==> agent == name.agent
        &&& self.kind matches Some(kind) ==> kind == name.kind
    }

    /// What a key is to this selection.
    pub open spec fn selects(self, key: Seq<char>) -> Selected {
        match key::parsed(key) {
            Err(_) => Selected::Unnameable,
            Ok(name) => if self.keeps(name) {
                Selected::Yes
            } else {
                Selected::No
            },
        }
    }

    /// The filters that are set, each in words.
    pub open spec fn named(self) -> Seq<Seq<char>> {
        (match self.pool {
            Some(pool) => seq!["pool "@ + pool::bech32_of_pool(pool)],
            None => seq![],
        }) + (match self.agent {
            Some(agent) => seq!["agent "@ + agent],
            None => seq![],
        }) + (match self.kind {
            Some(kind) => seq!["kind "@ + kind.spelled()],
            None => seq![],
        })
    }

    /// This selection in words.
    pub open spec fn spelled(self) -> Seq<char> {
        if self.named().len() == 0 {
            "every pool, agent and kind"@
        } else {
            text::joined(self.named(), ", "@)
        }
    }
}

impl Days {
    /// Where a walk starts that a cursor puts behind `after`: there, or at the first day where
    /// that is later.
    pub open spec fn start_spec(self, after: Seq<char>) -> Seq<char> {
        match self.from {
            Some(from) => if text::before(after, from@) {
                from@
            } else {
                after
            },
            None => after,
        }
    }

    /// Whether a key is filed past the last day.
    pub open spec fn past_spec(self, key: Seq<char>) -> bool {
        self.until matches Some(until) && text::before(until@, key) && !text::begins(key, until@)
    }

    /// Where a walk starts that a cursor puts behind `after`.
    pub fn start(&self, after: &str) -> (r: String)
        ensures
            r@ == self.start_spec(after@),
    {
        match &self.from {
            Some(from) => {
                if text::precedes(after, from.as_str()) {
                    from.clone()
                } else {
                    String::from_str(after)
                }
            },
            None => String::from_str(after),
        }
    }

    /// Whether a key is filed past the last day.
    pub fn past(&self, key: &str) -> (r: bool)
        ensures
            r == self.past_spec(key@),
    {
        match &self.until {
            Some(until) => text::precedes(until.as_str(), key) && !text::starts_with(
                key,
                until.as_str(),
            ),
            None => false,
        }
    }
}

/// No bound on either side.
impl Default for Days {
    fn default() -> (r: Self)
        ensures
            r.from is None,
            r.until is None,
    {
        Days { from: None, until: None }
    }
}

/// The selection that keeps every object that can be named.
impl Default for Selection {
    fn default() -> (r: Self)
        ensures
            r@ == (Choice { pool: None, agent: None, kind: None }),
    {
        Selection { pool: None, agent: None, kind: None }
    }
}

impl Selection {
    /// What a key is to this selection. Every key is parsed, filters or none: what cannot be
    /// named cannot be synced, and the count is what says the archive holds such objects.
    pub fn selects(&self, key: &str) -> (r: Selected)
        ensures
            r == self@.selects(key@),
    {
        let name = match ObjectName::parse(key) {
            Ok(name) => name,
            Err(_) => {
                return Selected::Unnameable;
            },
        };
        let pool: bool = match &self.pool {
            Some(pool) => pool.same(&name.pool_id),
            None => true,
        };
        let agent: bool = match &self.agent {
            Some(agent) => agent.same(&name.agent_id),
            None => true,
        };
        let kind: bool = match self.kind {
            Some(kind) => kind == name.kind,
            None => true,
        };
        if pool && agent && kind {
            Selected::Yes
        } else {
            Selected::No
        }
    }

    /// Whether two selections keep the same.
    pub fn same(&self, other: &Selection) -> (r: bool)
        ensures
            r == (self@ == other@),
    {
        let pool: bool = match (&self.pool, &other.pool) {
            (Some(a), Some(b)) => a.same(b),
            (None, None) => true,
            _ => false,
        };
        let agent: bool = match (&self.agent, &other.agent) {
            (Some(a), Some(b)) => a.same(b),
            (None, None) => true,
            _ => false,
        };
        let kind: bool = match (self.kind, other.kind) {
            (Some(a), Some(b)) => a == b,
            (None, None) => true,
            _ => false,
        };
        pool && agent && kind
    }

    /// This selection in words.
    pub fn describe(&self) -> (r: String)
        ensures
            r@ == self@.spelled(),
    {
        let mut named: Vec<String> = Vec::new();
        if let Some(pool) = &self.pool {
            let mut words = String::from_str("pool ");
            words.append(pool.to_bech32().as_str());
            named.push(words);
        }
        if let Some(agent) = &self.agent {
            let mut words = String::from_str("agent ");
            words.append(agent.as_str());
            named.push(words);
        }
        if let Some(kind) = self.kind {
            let mut words = String::from_str("kind ");
            words.append(kind.as_str());
            named.push(words);
        }
        assert(text::views(named@) =~= self@.named());
        if named.len() == 0 {
            String::from_str("every pool, agent and kind")
        } else {
            text::join(named.as_slice(), ", ")
        }
    }
}

impl Clone for Selection {
    fn clone(&self) -> (r: Self)
        ensures
            r@ == self@,
    {
        Selection {
            pool: self.pool,
            agent: match &self.agent {
                Some(agent) => Some(agent.clone()),
                None => None,
            },
            kind: self.kind,
        }
    }
}

/// A narrower selection keeps nothing that a wider one leaves out.
pub proof fn everything_keeps_what_any_keeps(choice: Choice, key: Seq<char>)
    ensures
        choice.selects(key) == Selected::Yes ==> (Choice {
            pool: None,
            agent: None,
            kind: None,
        }).selects(key) == Selected::Yes,
        choice.selects(key) == Selected::Unnameable <==> (Choice {
            pool: None,
            agent: None,
            kind: None,
        }).selects(key) == Selected::Unnameable,
{
}

/// An object has to pass every filter that is set, and no other: the key of an object is selected
/// exactly where each set filter names what the object is filed under, and passed over otherwise.
pub proof fn every_filter_has_to_pass(choice: Choice, key: Seq<char>, name: key::Name)
    requires
        key::parsed(key) == Ok::<key::Name, Seq<char>>(name),
    ensures
        choice.selects(key) == Selected::Yes <==> (choice.pool is None || choice.pool->0
            == name.pool) && (choice.agent is None || choice.agent->0 == name.agent) && (
        choice.kind is None || choice.kind->0 == name.kind),
        choice.selects(key) != Selected::Unnameable,
{
}

/// A selection keeps exactly what each of its filters keeps alone, so that another filter never
/// keeps more.
pub proof fn filters_narrow(choice: Choice, key: Seq<char>)
    ensures
        choice.selects(key) == Selected::Yes <==> (Choice {
            agent: None,
            kind: None,
            ..choice
        }).selects(key) == Selected::Yes && (Choice { pool: None, kind: None, ..choice }).selects(
            key,
        ) == Selected::Yes && (Choice { pool: None, agent: None, ..choice }).selects(key)
            == Selected::Yes,
{
}

/// What no name can be read out of is answered as that, whatever is filtered by, and nothing else
/// is.
pub proof fn unnameable_is_the_keys_own(choice: Choice, key: Seq<char>)
    ensures
        choice.selects(key) == Selected::Unnameable <==> key::parsed(key) is Err,
{
}

/// A walk never starts before where its cursor stands, nor before its first day, and starts at one
/// of the two.
pub proof fn a_walk_starts_at_the_later(days: Days, after: Seq<char>)
    ensures
        !text::before(days.start_spec(after), after),
        days.from matches Some(from) ==> !text::before(days.start_spec(after), from@),
        days.start_spec(after) == after || (days.from matches Some(from) && days.start_spec(after)
            == from@),
        days.from is None ==> days.start_spec(after) == after,
{
    text::lemma_before_irreflexive(after);
    if let Some(from) = days.from {
        text::lemma_before_irreflexive(from@);
        if text::before(after, from@) && text::before(from@, after) {
            text::lemma_before_transitive(after, from@, after);
        }
    }
}

/// What begins with a text stands before whatever stands behind that text and does not begin with
/// it.
proof fn lemma_begun_stands_before(head: Seq<char>, begun: Seq<char>, behind: Seq<char>)
    requires
        text::begins(begun, head),
        text::before(head, behind),
        !text::begins(behind, head),
    ensures
        text::before(begun, behind),
    decreases head.len(),
{
    if head.len() == 0 {
        assert(behind.take(0) =~= head);
    } else {
        assert(begun[0] == begun.take(head.len() as int)[0]);
        if head[0] == behind[0] {
            let rest = head.skip(1);
            assert(begun.skip(1).take(rest.len() as int) =~= begun.take(head.len() as int).skip(1));
            if text::begins(behind.skip(1), rest) {
                assert(behind.take(head.len() as int) =~= seq![head[0]] + behind.skip(1).take(
                    rest.len() as int,
                ));
                assert(head =~= seq![head[0]] + rest);
            }
            lemma_begun_stands_before(rest, begun.skip(1), behind.skip(1));
        }
    }
}

/// The last day is in, with every key that is filed on it; what is behind a key that is past it is
/// past it too, so that a walk in key order may stop there.
pub proof fn past_the_last_day_stays_past(days: Days, key: Seq<char>, later: Seq<char>)
    ensures
        days.until is None ==> !days.past_spec(key),
        days.until matches Some(until) ==> {
            &&& !days.past_spec(until@ + key)
            &&& text::before(key, until@) ==> !days.past_spec(key)
            &&& days.past_spec(key) && text::before(key, later) ==> days.past_spec(later)
        },
{
    if let Some(until) = days.until {
        assert((until@ + key).take(until@.len() as int) =~= until@);
        if text::before(key, until@) && text::before(until@, key) {
            text::lemma_before_transitive(key, until@, key);
            text::lemma_before_irreflexive(key);
        }
        if days.past_spec(key) && text::before(key, later) {
            text::lemma_before_transitive(until@, key, later);
            if text::begins(later, until@) {
                lemma_begun_stands_before(until@, later, key);
                text::lemma_before_transitive(key, later, key);
                text::lemma_before_irreflexive(key);
            }
        }
    }
}

/// A selection keeps an object exactly where each filter that is set is met by what the key names:
/// the pool, the agent and the kind, each on its own.
pub proof fn a_selection_keeps_what_each_filter_does(
    selection: &Selection,
    key: &str,
    name: key::Name,
    given: Selected,
)
    requires
        call_ensures(Selection::selects, (selection, key), given),
        key::parsed(key@) == Ok::<key::Name, Seq<char>>(name),
    ensures
        given == Selected::Yes <==> {
            &&& selection.pool is None || selection.pool->0@ == name.pool
            &&& selection.agent is None || selection.agent->0@ == name.agent
            &&& selection.kind is None || selection.kind->0 == name.kind
        },
        given != Selected::Unnameable,
{
    every_filter_has_to_pass(selection@, key@, name);
}

}
