//! What an interrupted sync and the one that resumes it come to together.

use vstd::prelude::*;

use crate::fetch::pull;
use crate::fetch::select;
use crate::fetch::select::{Days, Selected};
use crate::fetch::sync;
use crate::fetch::sync::{Asked, Fault, Rejected, Run, Standing, State};
use crate::fetch::verification::Insist;
use crate::server::archive;
use crate::text;
use crate::wire::attestation;

verus! {

/// An archive as a sync meets it: the keys it holds, how many of them a page has at most, and what
/// downloading each comes to, with what a Leios verifier answers of it.
pub struct Source {
    pub held: Seq<Seq<char>>,
    pub max_keys: int,
    pub objects: spec_fn(Seq<char>) -> (
        Result<(Seq<u8>, Option<attestation::Claim>), pull::PullFault>,
        bool,
    ),
}

impl Source {
    /// The keys under a prefix that come after a key, in order.
    pub open spec fn listing(self, prefix: Seq<char>, after: Seq<char>) -> Seq<Seq<char>> {
        archive::in_order(self.held.filter(archive::on_page(prefix, after)))
    }

    /// Which keys are written down: those a selection keeps whose objects are judged fit to be.
    pub open spec fn lands(self, selection: select::Choice, insist: Insist) -> spec_fn(
        Seq<char>,
    ) -> bool {
        |key: Seq<char>|
            selection.selects(key) == Selected::Yes && ((self.objects)(key).0 matches Ok(
                (bytes, claim),
            ) && sync::judged(key, bytes, claim, (self.objects)(key).1, insist) is Ok)
    }

    /// Whether a sync of this archive goes from one state to another in one step. Each step may
    /// fail, and the run stops there.
    pub open spec fn steps(self, before: Run, after: Run) -> bool {
        &&& after.wf()
        &&& match before.state {
            State::Listing => after.lists(
                before,
                Ok(
                    archive::page_held(
                        self.held,
                        before.asked.prefix@,
                        before.pages.after@,
                        self.max_keys,
                    ),
                ),
            ) || after.stops(before),
            State::Choosing => after.looks(before),
            State::Downloading { key, .. } => after.judges(
                before,
                (self.objects)(key@).0,
                (self.objects)(key@).1,
            ) || after.stops(before),
            State::Writing { .. } => after.writes(before) || after.stops(before),
            State::Saving => after.saves(before) || after.stops(before),
            State::Finished => false,
            State::Stopped => false,
        }
    }

    /// Whether these are the states that one sync of this archive went through, from its start.
    pub open spec fn runs(self, states: Seq<Run>) -> bool
        decreases states.len(),
    {
        if states.len() <= 1 {
            states.len() == 1 && states[0].begins()
        } else {
            self.runs(states.drop_last()) && self.steps(
                states[states.len() - 2],
                states[states.len() - 1],
            )
        }
    }
}

/// Whether two runs are asked for the same.
pub open spec fn alike(a: Asked, b: Asked) -> bool {
    &&& a.prefix@ == b.prefix@
    &&& a.selection@ == b.selection@
    &&& text::view_of(a.days.from) == text::view_of(b.days.from)
    &&& text::view_of(a.days.until) == text::view_of(b.days.until)
    &&& a.verification == b.verification
}

/// The listing a run is over, from where it starts.
spec fn all_of(source: Source, first: Run) -> Seq<Seq<char>> {
    source.listing(first.asked.prefix@, first.asked.days.start_spec(first.cursor.after@))
}

/// What is still ahead behind the keys in hand.
spec fn unlisted(source: Source, run: Run) -> Seq<Seq<char>> {
    if run.pages.done {
        Seq::empty()
    } else {
        source.listing(run.asked.prefix@, run.pages.after@)
    }
}

/// What holds of a run in every state that it reaches: it is through with the head of its listing,
/// and what it has in hand and has yet to list is the rest.
spec fn on_course(source: Source, first: Run, run: Run) -> bool {
    let all = all_of(source, first);
    let n = run.settled@.len() as int;
    let keys = text::views(run.keys@);
    let rest = unlisted(source, run);
    &&& run.wf()
    &&& run.asked == first.asked
    &&& n <= all.len()
    &&& run.settled@ == all.take(n)
    &&& run.landed@ == run.settled@.filter(
        source.lands(first.asked.selection@, first.asked.verification.insist),
    )
    &&& forall|i: int| 0 <= i < n ==> !first.asked.days.past_spec(#[trigger] run.settled@[i])
    &&& run.cursor.after@ == if n == 0 {
        first.cursor.after@
    } else {
        run.settled@.last()
    }
    &&& match run.state {
        State::Listing => all.skip(n) == rest,
        State::Choosing => all.skip(n) == keys.skip(run.at as int) + rest,
        State::Downloading { .. } => all.skip(n) == keys.skip(run.at as int) + rest
            && !first.asked.days.past_spec(run.key_now()),
        State::Writing { .. } => all.skip(n) == keys.skip(run.at as int) + rest
            && !first.asked.days.past_spec(run.key_now()) && source.lands(
            first.asked.selection@,
            first.asked.verification.insist,
        )(run.key_now()),
        State::Saving => all.skip(n) == keys.skip(run.at + 1) + rest,
        State::Finished => run.settled@ == sync::within(first.asked.days, all),
        State::Stopped => true,
    }
}

proof fn lemma_within_behind(days: Days, head: Seq<Seq<char>>, rest: Seq<Seq<char>>)
    requires
        forall|i: int| 0 <= i < head.len() ==> !days.past_spec(#[trigger] head[i]),
    ensures
        sync::within(days, head + rest) == head + sync::within(days, rest),
    decreases head.len(),
{
    if head.len() == 0 {
        assert(head + rest =~= rest);
        assert(head + sync::within(days, rest) =~= sync::within(days, rest));
    } else {
        let tail = head.skip(1);
        assert forall|i: int| 0 <= i < tail.len() implies !days.past_spec(#[trigger] tail[i]) by {
            assert(tail[i] == head[i + 1]);
        }
        lemma_within_behind(days, tail, rest);
        assert((head + rest).skip(1) =~= tail + rest);
        assert((head + rest)[0] == head[0]);
        assert(head + sync::within(days, rest) =~= seq![head[0]] + (tail + sync::within(
            days,
            rest,
        )));
    }
}

proof fn lemma_within_alike(a: Days, b: Days, keys: Seq<Seq<char>>)
    requires
        text::view_of(a.until) == text::view_of(b.until),
    ensures
        sync::within(a, keys) == sync::within(b, keys),
    decreases keys.len(),
{
    if keys.len() > 0 {
        lemma_within_alike(a, b, keys.skip(1));
        assert(a.past_spec(keys[0]) == b.past_spec(keys[0]));
    }
}

proof fn lemma_filter_push(
    keys: Seq<Seq<char>>,
    key: Seq<char>,
    keep: spec_fn(Seq<char>) -> bool,
)
    ensures
        keys.push(key).filter(keep) == if keep(key) {
            keys.filter(keep).push(key)
        } else {
            keys.filter(keep)
        },
{
    reveal(Seq::filter);
    assert(keys.push(key).drop_last() =~= keys);
}

/// One more key behind the head of a listing.
proof fn lemma_settled(
    all: Seq<Seq<char>>,
    n: int,
    keys: Seq<Seq<char>>,
    at: int,
    rest: Seq<Seq<char>>,
)
    requires
        0 <= n <= all.len(),
        0 <= at < keys.len(),
        all.skip(n) == keys.skip(at) + rest,
    ensures
        n < all.len(),
        all.take(n + 1) == all.take(n).push(keys[at]),
        all.skip(n + 1) == keys.skip(at + 1) + rest,
{
    let ahead = keys.skip(at) + rest;
    assert(ahead.len() > 0 && ahead[0] == keys[at]);
    assert(all.skip(n).len() == ahead.len());
    assert(all[n] == all.skip(n)[0]);
    assert(all.take(n + 1) =~= all.take(n).push(keys[at]));
    assert(all.skip(n + 1) =~= all.skip(n).skip(1));
    assert(ahead.skip(1) =~= keys.skip(at + 1) + rest);
}

proof fn lemma_page_taken(source: Source, first: Run, before: Run, after: Run)
    requires
        source.held.no_duplicates(),
        source.max_keys > 0,
        on_course(source, first, before),
        before.state == State::Listing,
        source.steps(before, after),
    ensures
        on_course(source, first, after),
{
    let prefix = before.asked.prefix@;
    let behind = before.pages.after@;
    let all = all_of(source, first);
    let n = before.settled@.len() as int;
    if !after.stops(before) {
        let (page, truncated) = archive::page_held(source.held, prefix, behind, source.max_keys);
        let rest = source.listing(prefix, behind);
        sync::own_pages_move_the_walk(source.held, prefix, behind, source.max_keys);
        if page.len() == 0 {
            assert(sync::paged(behind, page, truncated) is End);
            assert(all.take(n) + all.skip(n) =~= all);
            assert(all.skip(n) =~= Seq::<Seq<char>>::empty());
            lemma_within_behind(first.asked.days, before.settled@, all.skip(n));
            assert(before.settled@ + sync::within(first.asked.days, all.skip(n)) =~= before.settled@);
        } else {
            assert(sync::paged(behind, page, truncated) is Keys);
            assert(text::views(after.keys@).skip(0) =~= page);
            if truncated {
                archive::next_page_resumes(source.held, prefix, behind, source.max_keys);
                assert(page.last() == rest[source.max_keys - 1]);
                assert(rest =~= rest.take(source.max_keys) + rest.skip(source.max_keys));
            } else {
                assert(page + Seq::<Seq<char>>::empty() =~= page);
            }
        }
    }
}

proof fn lemma_key_looked_at(source: Source, first: Run, before: Run, after: Run)
    requires
        on_course(source, first, before),
        before.state == State::Choosing,
        source.steps(before, after),
    ensures
        on_course(source, first, after),
{
    let days = first.asked.days;
    let all = all_of(source, first);
    let n = before.settled@.len() as int;
    let keys = text::views(before.keys@);
    let rest = unlisted(source, before);
    let lands = source.lands(first.asked.selection@, first.asked.verification.insist);
    assert(all.take(n) + all.skip(n) =~= all);
    if before.at == before.keys@.len() {
        assert(keys.skip(before.at as int) + rest =~= rest);
        if before.pages.done {
            lemma_within_behind(days, before.settled@, all.skip(n));
            assert(before.settled@ + sync::within(days, all.skip(n)) =~= before.settled@);
        }
    } else {
        let key = before.key_now();
        assert(keys[before.at as int] == key);
        lemma_settled(all, n, keys, before.at as int, rest);
        if days.past_spec(key) {
            assert(all.skip(n)[0] == key);
            lemma_within_behind(days, before.settled@, all.skip(n));
            assert(before.settled@ + sync::within(days, all.skip(n)) =~= before.settled@);
        } else if before.asked.selection@.selects(key) != Selected::Yes {
            lemma_filter_push(before.settled@, key, lands);
        }
    }
}

proof fn lemma_object_met(source: Source, first: Run, before: Run, after: Run)
    requires
        on_course(source, first, before),
        before.state is Downloading || before.state is Writing || before.state is Saving,
        source.steps(before, after),
    ensures
        on_course(source, first, after),
{
    let all = all_of(source, first);
    let n = before.settled@.len() as int;
    let keys = text::views(before.keys@);
    let rest = unlisted(source, before);
    let lands = source.lands(first.asked.selection@, first.asked.verification.insist);
    if !after.stops(before) && !(before.state is Saving) {
        let key = before.key_now();
        assert(keys[before.at as int] == key);
        lemma_settled(all, n, keys, before.at as int, rest);
        lemma_filter_push(before.settled@, key, lands);
    }
}

proof fn lemma_on_course(source: Source, states: Seq<Run>)
    requires
        source.held.no_duplicates(),
        source.max_keys > 0,
        source.runs(states),
    ensures
        states.len() > 0,
        on_course(source, states[0], states.last()),
    decreases states.len(),
{
    let first = states[0];
    if states.len() == 1 {
        assert(first.settled@ =~= all_of(source, first).take(0));
        assert(all_of(source, first).skip(0) =~= all_of(source, first));
        assert(first.landed@ =~= first.settled@.filter(
            source.lands(first.asked.selection@, first.asked.verification.insist),
        )) by {
            reveal(Seq::filter);
        }
    } else {
        lemma_on_course(source, states.drop_last());
        let before = states[states.len() - 2];
        assert(states.drop_last().last() == before);
        match before.state {
            State::Listing => lemma_page_taken(source, first, before, states.last()),
            State::Choosing => lemma_key_looked_at(source, first, before, states.last()),
            _ => lemma_object_met(source, first, before, states.last()),
        }
    }
}

/// A run that stopped, and another that resumes from a cursor the first one saved, come together to
/// what one run from the start comes to: behind the keys up to that cursor the second run meets
/// every other key, none twice, and writes down the objects among them that one run would.
pub proof fn resuming_misses_nothing(
    source: Source,
    stopped: Seq<Run>,
    saved: int,
    resumed: Seq<Run>,
    whole: Seq<Run>,
)
    requires
        source.held.no_duplicates(),
        source.max_keys > 0,
        source.runs(stopped),
        source.runs(resumed),
        source.runs(whole),
        alike(stopped[0].asked, whole[0].asked),
        alike(resumed[0].asked, whole[0].asked),
        stopped[0].cursor.after@ == whole[0].cursor.after@,
        0 <= saved <= stopped.last().settled@.len(),
        resumed[0].cursor.after@ == if saved == 0 {
            stopped[0].cursor.after@
        } else {
            stopped.last().settled@[saved - 1]
        },
        resumed.last().state == State::Finished,
        whole.last().state == State::Finished,
    ensures
        stopped.last().settled@.take(saved) + resumed.last().settled@ == whole.last().settled@,
        stopped.last().settled@.take(saved).filter(
            source.lands(whole[0].asked.selection@, whole[0].asked.verification.insist),
        ) + resumed.last().landed@ == whole.last().landed@,
{
    lemma_on_course(source, stopped);
    lemma_on_course(source, resumed);
    lemma_on_course(source, whole);
    let asked = whole[0].asked;
    let lands = source.lands(asked.selection@, asked.verification.insist);
    let prefix = asked.prefix@;
    let start = asked.days.start_spec(whole[0].cursor.after@);
    let all = source.listing(prefix, start);
    assert(all_of(source, whole[0]) == all);
    assert(stopped[0].asked.days.start_spec(stopped[0].cursor.after@) == start);
    assert(all_of(source, stopped[0]) == all);
    let done = stopped.last().settled@;
    let head = done.take(saved);
    assert(head =~= all.take(saved));
    assert(all_of(source, resumed[0]) == all.skip(saved)) by {
        if saved == 0 {
            assert(all.skip(0) =~= all);
        } else {
            let key = all[saved - 1];
            assert(done[saved - 1] == key);
            archive::page_is_in_key_order(source.held, prefix, start, all.len() as int);
            assert(text::before(start, key));
            lemma_start_stays(asked.days, whole[0].cursor.after@, key);
            assert(resumed[0].asked.days.start_spec(key) == asked.days.start_spec(key));
            archive::next_page_resumes(source.held, prefix, start, saved);
        }
    }
    lemma_within_alike(resumed[0].asked.days, asked.days, all.skip(saved));
    assert forall|i: int| 0 <= i < head.len() implies !asked.days.past_spec(#[trigger] head[i]) by {
        assert(head[i] == done[i]);
        assert(stopped[0].asked.days.past_spec(done[i]) == asked.days.past_spec(done[i]));
    }
    lemma_within_behind(asked.days, head, all.skip(saved));
    assert(all =~= head + all.skip(saved));
    Seq::filter_distributes_over_add(head, resumed.last().settled@, lands);
}

/// Where a run that was past its start resumes, the first day moves nothing.
proof fn lemma_start_stays(days: Days, after: Seq<char>, key: Seq<char>)
    requires
        text::before(days.start_spec(after), key),
    ensures
        days.start_spec(key) == key,
{
    if let Some(from) = days.from {
        if text::before(key, from@) {
            if text::before(after, from@) {
                text::lemma_before_transitive(key, from@, key);
                text::lemma_before_irreflexive(key);
            } else {
                text::lemma_before_transitive(after, key, from@);
            }
        }
    }
}

/// An interrupted sync and its resumption land together what one run lands, in the same order and
/// each object once, where the cursor that the first run left is the one the second resumes from.
pub proof fn resumption_completes(
    source: Source,
    stopped: Seq<Run>,
    resumed: Seq<Run>,
    whole: Seq<Run>,
)
    requires
        source.held.no_duplicates(),
        source.max_keys > 0,
        source.runs(stopped),
        source.runs(resumed),
        source.runs(whole),
        alike(stopped[0].asked, whole[0].asked),
        alike(resumed[0].asked, whole[0].asked),
        stopped[0].cursor.after@ == whole[0].cursor.after@,
        resumed[0].cursor.after@ == stopped.last().cursor.after@,
        resumed.last().state == State::Finished,
        whole.last().state == State::Finished,
    ensures
        stopped.last().settled@ + resumed.last().settled@ == whole.last().settled@,
        stopped.last().landed@ + resumed.last().landed@ == whole.last().landed@,
{
    lemma_on_course(source, stopped);
    let done = stopped.last().settled@;
    assert(done.take(done.len() as int) =~= done);
    resuming_misses_nothing(source, stopped, done.len() as int, resumed, whole);
}

/// A sync that is through its listing is through with every key of it up to the last day, in order,
/// and wrote down exactly those that the selection keeps and whose objects were judged fit to be.
pub proof fn a_whole_sync_lands_what_is_fit(source: Source, states: Seq<Run>)
    requires
        source.held.no_duplicates(),
        source.max_keys > 0,
        source.runs(states),
        states.last().state == State::Finished,
    ensures
        ({
            let asked = states[0].asked;
            let all = source.listing(
                asked.prefix@,
                asked.days.start_spec(states[0].cursor.after@),
            );
            &&& states.last().settled@ == sync::within(asked.days, all)
            &&& states.last().landed@ == sync::within(asked.days, all).filter(
                source.lands(asked.selection@, asked.verification.insist),
            )
        }),
{
    lemma_on_course(source, states);
}

impl Source {
    /// What the object under a key counts as, where it is fit to be written down.
    pub open spec fn standing(self, key: Seq<char>, insist: Insist) -> Option<Standing> {
        match (self.objects)(key).0 {
            Ok((bytes, claim)) => match sync::judged(
                key,
                bytes,
                claim,
                (self.objects)(key).1,
                insist,
            ) {
                Ok(standing) => Some(standing),
                Err(_) => None,
            },
            Err(_) => None,
        }
    }

    /// Whether the object under a key came and failed to verify.
    pub open spec fn fails(self, key: Seq<char>, insist: Insist) -> bool {
        (self.objects)(key).0 matches Ok((bytes, claim)) && (sync::judged(
            key,
            bytes,
            claim,
            (self.objects)(key).1,
            insist,
        ) matches Err((fault, _)) && fault == Fault::Verdict)
    }

    /// Which keys a run names as not written: those a selection keeps whose objects do not land.
    pub open spec fn turned_away(self, selection: select::Choice, insist: Insist) -> spec_fn(
        Seq<char>,
    ) -> bool {
        |key: Seq<char>|
            selection.selects(key) == Selected::Yes && !self.lands(selection, insist)(key)
    }

    /// How many of some keys count as something.
    pub open spec fn tally(self, keys: Seq<Seq<char>>, insist: Insist, standing: Standing) -> int
        decreases keys.len(),
    {
        if keys.len() == 0 {
            0
        } else {
            self.tally(keys.drop_last(), insist, standing) + if self.standing(keys.last(), insist)
                == Some(standing) {
                1int
            } else {
                0
            }
        }
    }

    /// How many bytes the objects under some keys hold.
    pub open spec fn weight(self, keys: Seq<Seq<char>>) -> int
        decreases keys.len(),
    {
        if keys.len() == 0 {
            0
        } else {
            self.weight(keys.drop_last()) + match (self.objects)(keys.last()).0 {
                Ok((bytes, _)) => bytes.len() as int,
                Err(_) => 0,
            }
        }
    }
}

spec fn accounted(source: Source, first: Run, run: Run) -> bool {
    let choice = first.asked.selection@;
    let insist = first.asked.verification.insist;
    &&& run.asked == first.asked
    &&& run.report.passed == sync::count_of(choice, run.settled@, Selected::No)
    &&& run.report.unnameable == sync::count_of(choice, run.settled@, Selected::Unnameable)
    &&& run.landed@ == run.settled@.filter(source.lands(choice, insist))
    &&& run.report.rejected@.map_values(|rejected: Rejected| rejected.key@) == run.settled@.filter(
        source.turned_away(choice, insist),
    )
    &&& run.report.cold_signed == source.tally(run.landed@, insist, Standing::ColdSigned)
    &&& run.report.leios_signed == source.tally(run.landed@, insist, Standing::LeiosSigned)
    &&& run.report.unattested == source.tally(run.landed@, insist, Standing::Unattested)
    &&& source.weight(run.landed@) <= u64::MAX ==> run.report.bytes == source.weight(run.landed@)
    &&& forall|key: Seq<char>| #[trigger]
        run.cursor@.unverified.contains(key) <==> first.cursor@.unverified.contains(key) || (
        run.settled@.contains(key) && choice.selects(key) == Selected::Yes && source.fails(
            key,
            insist,
        ))
    &&& run.state matches State::Writing { key, standing, bytes, .. } ==> source.standing(
        key@,
        insist,
    ) == Some(standing) && (source.objects)(key@).0 is Ok && ((source.objects)(key@).0->Ok_0).0
        == bytes@
}

proof fn lemma_contains_push(keys: Seq<Seq<char>>, key: Seq<char>)
    ensures
        forall|one: Seq<char>| #[trigger]
            keys.push(key).contains(one) <==> keys.contains(one) || one == key,
{
    assert(keys.push(key)[keys.len() as int] == key);
    assert forall|one: Seq<char>| #[trigger] keys.push(key).contains(one) <==> keys.contains(one)
        || one == key by {
        if keys.contains(one) {
            let i = choose|i: int| 0 <= i < keys.len() && keys[i] == one;
            assert(keys.push(key)[i] == one);
        }
        if keys.push(key).contains(one) && one != key {
            let i = choose|i: int| 0 <= i < keys.push(key).len() && keys.push(key)[i] == one;
            assert(keys[i] == one);
        }
    }
}

proof fn lemma_looked_accounted(source: Source, first: Run, before: Run, after: Run)
    requires
        before.wf(),
        accounted(source, first, before),
        before.state == State::Choosing,
        source.steps(before, after),
    ensures
        accounted(source, first, after),
{
    let choice = first.asked.selection@;
    let insist = first.asked.verification.insist;
    if after.settled@ != before.settled@ {
        let key = before.key_now();
        assert(after.settled@ == before.settled@.push(key));
        assert(choice.selects(key) != Selected::Yes);
        lemma_contains_push(before.settled@, key);
        lemma_filter_push(before.settled@, key, source.lands(choice, insist));
        lemma_filter_push(before.settled@, key, source.turned_away(choice, insist));
        assert(before.settled@.push(key).drop_last() =~= before.settled@);
    }
}

proof fn lemma_judged_accounted(source: Source, first: Run, before: Run, after: Run)
    requires
        before.wf(),
        accounted(source, first, before),
        before.state is Downloading,
        source.steps(before, after),
    ensures
        accounted(source, first, after),
{
    let choice = first.asked.selection@;
    let insist = first.asked.verification.insist;
    let key = before.key_now();
    if after.state is Saving {
        assert(after.settled@ == before.settled@.push(key));
        assert(choice.selects(key) == Selected::Yes);
        assert(!source.lands(choice, insist)(key));
        lemma_contains_push(before.settled@, key);
        lemma_filter_push(before.settled@, key, source.lands(choice, insist));
        lemma_filter_push(before.settled@, key, source.turned_away(choice, insist));
        assert(before.settled@.push(key).drop_last() =~= before.settled@);
        let named = |rejected: Rejected| rejected.key@;
        let was = before.report.rejected@;
        let now = after.report.rejected@;
        assert(now.map_values(named) =~= was.map_values(named).push(key));
    }
}

proof fn lemma_written_accounted(source: Source, first: Run, before: Run, after: Run)
    requires
        before.wf(),
        accounted(source, first, before),
        before.state is Writing,
        source.steps(before, after),
    ensures
        accounted(source, first, after),
{
    let choice = first.asked.selection@;
    let insist = first.asked.verification.insist;
    let key = before.key_now();
    if after.state is Saving {
        assert(after.settled@ == before.settled@.push(key));
        assert(after.landed@ == before.landed@.push(key));
        assert(choice.selects(key) == Selected::Yes);
        assert(source.lands(choice, insist)(key));
        assert(!source.fails(key, insist));
        lemma_contains_push(before.settled@, key);
        lemma_filter_push(before.settled@, key, source.lands(choice, insist));
        lemma_filter_push(before.settled@, key, source.turned_away(choice, insist));
        assert(before.settled@.push(key).drop_last() =~= before.settled@);
        assert(before.landed@.push(key).drop_last() =~= before.landed@);
        assert(source.weight(after.landed@) >= source.weight(before.landed@));
    }
}

proof fn lemma_accounted(source: Source, states: Seq<Run>)
    requires
        source.runs(states),
    ensures
        states.len() > 0,
        states.last().wf(),
        accounted(source, states[0], states.last()),
    decreases states.len(),
{
    let first = states[0];
    if states.len() == 1 {
        let choice = first.asked.selection@;
        let insist = first.asked.verification.insist;
        assert(first.settled@ =~= Seq::empty());
        assert(first.landed@ =~= Seq::empty());
        assert(first.landed@.filter(source.lands(choice, insist)) =~= Seq::empty()) by {
            reveal(Seq::filter);
        }
        assert(first.settled@.filter(source.turned_away(choice, insist)) =~= Seq::empty()) by {
            reveal(Seq::filter);
        }
        assert(first.report.rejected@.map_values(|rejected: Rejected| rejected.key@)
            =~= Seq::empty());
    } else {
        lemma_accounted(source, states.drop_last());
        let before = states[states.len() - 2];
        assert(states.drop_last().last() == before);
        match before.state {
            State::Choosing => lemma_looked_accounted(source, first, before, states.last()),
            State::Downloading { .. } => lemma_judged_accounted(
                source,
                first,
                before,
                states.last(),
            ),
            State::Writing { .. } => lemma_written_accounted(source, first, before, states.last()),
            _ => {},
        }
    }
}

/// A report is an account of every key that was met: how many were outside the selection, how many
/// name no object, which were not written, and of those that were how many bytes and under which
/// signatures. And the cursor records exactly the objects that came and failed to verify.
pub proof fn a_report_accounts_for_every_key(source: Source, states: Seq<Run>, key: Seq<char>)
    requires
        source.runs(states),
    ensures
        ({
            let choice = states[0].asked.selection@;
            let insist = states[0].asked.verification.insist;
            let run = states.last();
            let met = run.settled@;
            &&& run.report.settled() == met.len()
            &&& run.report.passed == sync::count_of(choice, met, Selected::No)
            &&& run.report.unnameable == sync::count_of(choice, met, Selected::Unnameable)
            &&& run.landed@ == met.filter(source.lands(choice, insist))
            &&& run.report.objects == run.landed@.len()
            &&& run.report.rejected@.map_values(|rejected: Rejected| rejected.key@) == met.filter(
                source.turned_away(choice, insist),
            )
            &&& run.report.cold_signed == source.tally(run.landed@, insist, Standing::ColdSigned)
            &&& run.report.leios_signed == source.tally(run.landed@, insist, Standing::LeiosSigned)
            &&& run.report.unattested == source.tally(run.landed@, insist, Standing::Unattested)
            &&& source.weight(run.landed@) <= u64::MAX ==> run.report.bytes == source.weight(
                run.landed@,
            )
            &&& run.cursor@.unverified.contains(key) <==> states[0].cursor@.unverified.contains(key)
                || (met.contains(key) && choice.selects(key) == Selected::Yes && source.fails(
                key,
                insist,
            ))
        }),
{
    lemma_accounted(source, states);
}

}
