//! Two budgets counted in fixed windows in memory: what one pool may upload, and what every pool
//! together may. The clock is a parameter, so one submission is judged against one clock reading.

use vstd::prelude::*;

use crate::count::NonZeroU32;
use crate::table::Table;
use crate::wire::moment;
use crate::wire::moment::Moment;
use crate::wire::pool::PoolId;

verus! {

/// What charging an upload cost. The two refusals are different news: one pool is over its own
/// budget, or the server is over the one they share.
#[derive(Debug, Clone, Copy, PartialEq, Eq, Structural)]
pub enum Charged {
    Allowed,
    PoolIsOver,
    ServerIsOver,
}

/// What was spent since a window started, in nanoseconds since 1970.
#[derive(Debug, Clone, Copy, PartialEq, Eq, Structural)]
pub struct Window {
    pub started_at: i128,
    pub used: u32,
}

/// The two budgets.
#[derive(Debug)]
pub struct RateLimiter {
    max_per_pool: u32,
    max_total: u32,
    window_secs: u32,
    pools: Table<Window>,
    total: Window,
}

/// What the budgets are, over plain values.
pub struct Budgets {
    pub max_per_pool: int,
    pub max_total: int,
    /// How long a window lasts, in nanoseconds.
    pub width: int,
    pub pools: Map<Seq<u8>, Window>,
    pub total: Window,
}

impl Window {
    /// The window as it stands at an instant: restarted if that is past it.
    pub open spec fn at_spec(self, now: int, width: int) -> Window {
        if now - self.started_at >= width {
            Window { started_at: now as i128, used: 0 }
        } else {
            self
        }
    }

    /// Whether there is something left to spend.
    pub open spec fn can_spend(self, max: int) -> bool {
        self.used < max
    }

    /// The window with one more spent.
    pub open spec fn spent(self) -> Window {
        Window { used: (self.used + 1) as u32, ..self }
    }

    fn at(self, now: i128, width: i128) -> (r: Window)
        requires
            moment::on_calendar(now as int),
            moment::on_calendar(self.started_at as int),
        ensures
            r == self.at_spec(now as int, width as int),
            moment::on_calendar(r.started_at as int),
    {
        if now - self.started_at >= width {
            Window { started_at: now, used: 0 }
        } else {
            self
        }
    }
}

impl Budgets {
    /// A pool's window as it stands at an instant. A pool that was not seen yet starts one.
    pub open spec fn pool_at(self, pool: Seq<u8>, now: int) -> Window {
        (if self.pools.contains_key(pool) {
            self.pools[pool]
        } else {
            Window { started_at: now as i128, used: 0 }
        }).at_spec(now, self.width)
    }

    /// What charging one upload answers.
    pub open spec fn answer(self, pool: Seq<u8>, now: int) -> Charged {
        if !self.pool_at(pool, now).can_spend(self.max_per_pool) {
            Charged::PoolIsOver
        } else if !self.total.at_spec(now, self.width).can_spend(self.max_total) {
            Charged::ServerIsOver
        } else {
            Charged::Allowed
        }
    }

    /// The budgets after one upload is charged. The pool's own budget is charged first, so a
    /// runaway agent is refused against its own limit rather than spending the budget every other
    /// pool shares. A pool's charge stands where the server is over: it asked.
    pub open spec fn charged(self, pool: Seq<u8>, now: int) -> Budgets {
        let own = self.pool_at(pool, now);
        let total = self.total.at_spec(now, self.width);
        match self.answer(pool, now) {
            Charged::PoolIsOver => Budgets { pools: self.pools.insert(pool, own), ..self },
            Charged::ServerIsOver => Budgets {
                pools: self.pools.insert(pool, own.spent()),
                total,
                ..self
            },
            Charged::Allowed => Budgets {
                pools: self.pools.insert(pool, own.spent()),
                total: total.spent(),
                ..self
            },
        }
    }

    /// Whether nothing spent is over its budget.
    pub open spec fn within(self) -> bool {
        &&& self.total.used <= self.max_total
        &&& forall|pool: Seq<u8>| #[trigger]
            self.pools.contains_key(pool) ==> self.pools[pool].used <= self.max_per_pool
    }
}

impl View for RateLimiter {
    type V = Budgets;

    closed spec fn view(&self) -> Budgets {
        Budgets {
            max_per_pool: self.max_per_pool as int,
            max_total: self.max_total as int,
            width: self.window_secs * 1_000_000_000,
            pools: self.pools@,
            total: self.total,
        }
    }
}

impl RateLimiter {
    #[verifier::type_invariant]
    spec fn well_formed(self) -> bool {
        &&& moment::on_calendar(self.total.started_at as int)
        &&& forall|pool: Seq<u8>| #[trigger]
            self.pools@.contains_key(pool) ==> moment::on_calendar(
                self.pools@[pool].started_at as int,
            )
        &&& self.total.used <= self.max_total
        &&& forall|pool: Seq<u8>| #[trigger]
            self.pools@.contains_key(pool) ==> self.pools@[pool].used <= self.max_per_pool
    }

    /// Budgets with nothing spent. The shared window is started in 1970 rather than now, so the
    /// first upload restarts it.
    pub fn new(max_per_pool: NonZeroU32, max_total: NonZeroU32, window_secs: NonZeroU32) -> (r:
        RateLimiter)
        ensures
            r@ == (Budgets {
                max_per_pool: max_per_pool@,
                max_total: max_total@,
                width: window_secs@ * 1_000_000_000,
                pools: Map::empty(),
                total: Window { started_at: 0, used: 0 },
            }),
    {
        RateLimiter {
            max_per_pool: max_per_pool.get(),
            max_total: max_total.get(),
            window_secs: window_secs.get(),
            pools: Table::new(),
            total: Window { started_at: 0, used: 0 },
        }
    }

    /// Charge one upload to `pool` and to the server.
    pub fn charge(&mut self, pool: PoolId, now: &Moment) -> (r: Charged)
        ensures
            r == old(self)@.answer(pool@, now.at()),
            final(self)@ == old(self)@.charged(pool@, now.at()),
    {
        proof {
            use_type_invariant(&*self);
        }
        let now: i128 = now.nanos();
        let width: i128 = self.window_secs as i128 * 1_000_000_000;
        let held = match self.pools.get(pool.hash.as_slice()) {
            Some(window) => *window,
            None => Window { started_at: now, used: 0 },
        };
        let own = held.at(now, width);
        if own.used >= self.max_per_pool {
            let mut pools: Table<Window> = Table::new();
            std::mem::swap(&mut pools, &mut self.pools);
            pools.insert(pool.hash.as_slice(), own);
            self.pools = pools;
            return Charged::PoolIsOver;
        }
        let mut pools: Table<Window> = Table::new();
        std::mem::swap(&mut pools, &mut self.pools);
        pools.insert(
            pool.hash.as_slice(),
            Window { started_at: own.started_at, used: own.used + 1 },
        );
        self.pools = pools;
        let total = self.total.at(now, width);
        if total.used >= self.max_total {
            self.total = total;
            return Charged::ServerIsOver;
        }
        self.total = Window { started_at: total.started_at, used: total.used + 1 };
        Charged::Allowed
    }
}

/// No charge takes a budget over what it is.
pub proof fn charging_stays_within(budgets: Budgets, pool: Seq<u8>, now: int)
    requires
        budgets.within(),
        budgets.max_per_pool >= 0,
        budgets.max_total >= 0,
    ensures
        budgets.charged(pool, now).within(),
{
    let after = budgets.charged(pool, now);
    assert forall|p: Seq<u8>| #[trigger] after.pools.contains_key(p) implies after.pools[p].used
        <= after.max_per_pool by {
        if p != pool {
            assert(budgets.pools.contains_key(p));
        } else if budgets.pools.contains_key(pool) {
            assert(budgets.pools[pool].used <= budgets.max_per_pool);
        }
    }
}

/// A charge touches no other pool's budget.
pub proof fn charging_leaves_others_alone(
    budgets: Budgets,
    pool: Seq<u8>,
    other: Seq<u8>,
    now: int,
)
    requires
        pool != other,
    ensures
        budgets.charged(pool, now).pools.contains_key(other) == budgets.pools.contains_key(other),
        budgets.pools.contains_key(other) ==> budgets.charged(pool, now).pools[other]
            == budgets.pools[other],
        budgets.charged(pool, now).pool_at(other, now) == budgets.pool_at(other, now),
{
}

/// A pool over its own budget spends nothing of what the others share.
pub proof fn over_pool_spends_nothing_shared(budgets: Budgets, pool: Seq<u8>, now: int)
    requires
        budgets.answer(pool, now) == Charged::PoolIsOver,
    ensures
        budgets.charged(pool, now).total == budgets.total,
{
}

/// How many of a run of charges, all to one pool, were allowed.
pub open spec fn allowed(budgets: Budgets, pool: Seq<u8>, instants: Seq<int>) -> int
    decreases instants.len(),
{
    if instants.len() == 0 {
        0
    } else {
        (if budgets.answer(pool, instants[0]) == Charged::Allowed {
            1int
        } else {
            0
        }) + allowed(budgets.charged(pool, instants[0]), pool, instants.skip(1))
    }
}

/// Within one window a pool is allowed no more uploads than its budget has left, however often it
/// asks.
pub proof fn a_window_allows_no_more_than_its_budget(
    budgets: Budgets,
    pool: Seq<u8>,
    instants: Seq<int>,
)
    requires
        budgets.within(),
        budgets.max_per_pool <= u32::MAX,
        budgets.max_total >= 0,
        budgets.pools.contains_key(pool),
        forall|i: int|
            0 <= i < instants.len() ==> #[trigger] instants[i] - budgets.pools[pool].started_at
                < budgets.width,
    ensures
        allowed(budgets, pool, instants) <= budgets.max_per_pool - budgets.pools[pool].used,
    decreases instants.len(),
{
    assert(budgets.pools[pool].used <= budgets.max_per_pool);
    if instants.len() > 0 {
        let now = instants[0];
        let after = budgets.charged(pool, now);
        charging_stays_within(budgets, pool, now);
        assert(instants[0] - budgets.pools[pool].started_at < budgets.width);
        assert(after.pools[pool].started_at == budgets.pools[pool].started_at);
        assert forall|i: int| 0 <= i < instants.skip(1).len() implies #[trigger] instants.skip(
            1,
        )[i] - after.pools[pool].started_at < after.width by {
            assert(instants.skip(1)[i] == instants[i + 1]);
        }
        a_window_allows_no_more_than_its_budget(after, pool, instants.skip(1));
    }
}

/// A pool that was never charged, and one whose window is as old as a window gets, has its whole
/// budget before it: the charge starts a window at that instant, and is the first in it.
pub proof fn a_window_starts_whole(budgets: Budgets, pool: Seq<u8>, now: int)
    requires
        budgets.max_per_pool > 0,
        budgets.max_total > 0,
        i128::MIN <= now <= i128::MAX,
        !budgets.pools.contains_key(pool) || now - budgets.pools[pool].started_at >= budgets.width,
    ensures
        budgets.answer(pool, now) != Charged::PoolIsOver,
        now - budgets.total.started_at >= budgets.width ==> budgets.answer(pool, now)
            == Charged::Allowed,
        budgets.charged(pool, now).pools.contains_key(pool),
        budgets.charged(pool, now).pools[pool].started_at == now,
        budgets.charged(pool, now).pools[pool].used == 1,
{
}

/// A charge costs its pool one unless the pool is over, and the server one only where it is
/// allowed. No window moves while it lasts, and the budgets stay what they are.
pub proof fn a_charge_counts_one(budgets: Budgets, pool: Seq<u8>, now: int)
    requires
        budgets.pools.contains_key(pool),
        now - budgets.pools[pool].started_at < budgets.width,
        now - budgets.total.started_at < budgets.width,
        budgets.max_per_pool <= u32::MAX,
        budgets.max_total <= u32::MAX,
    ensures
        ({
            let after = budgets.charged(pool, now);
            &&& after.pools.contains_key(pool)
            &&& after.pools[pool].started_at == budgets.pools[pool].started_at
            &&& after.pools[pool].used == budgets.pools[pool].used + if budgets.answer(pool, now)
                == Charged::PoolIsOver {
                0int
            } else {
                1
            }
            &&& after.total.started_at == budgets.total.started_at
            &&& after.total.used == budgets.total.used + if budgets.answer(pool, now)
                == Charged::Allowed {
                1int
            } else {
                0
            }
            &&& after.max_per_pool == budgets.max_per_pool
            &&& after.max_total == budgets.max_total
            &&& after.width == budgets.width
        }),
{
}

/// A pool gets all of what its window has left: while the server's own budget lasts, as many
/// uploads are allowed as were asked for, or as the pool has left where that is fewer.
pub proof fn a_window_allows_its_whole_budget(
    budgets: Budgets,
    pool: Seq<u8>,
    instants: Seq<int>,
)
    requires
        budgets.within(),
        budgets.max_per_pool <= u32::MAX,
        budgets.max_total <= u32::MAX,
        budgets.pools.contains_key(pool),
        budgets.total.used + instants.len() <= budgets.max_total,
        forall|i: int|
            0 <= i < instants.len() ==> #[trigger] instants[i] - budgets.pools[pool].started_at
                < budgets.width && instants[i] - budgets.total.started_at < budgets.width,
    ensures
        allowed(budgets, pool, instants) == if instants.len() <= budgets.max_per_pool
            - budgets.pools[pool].used {
            instants.len() as int
        } else {
            budgets.max_per_pool - budgets.pools[pool].used
        },
    decreases instants.len(),
{
    if instants.len() > 0 {
        let now = instants[0];
        let after = budgets.charged(pool, now);
        a_charge_counts_one(budgets, pool, now);
        charging_stays_within(budgets, pool, now);
        assert forall|i: int| 0 <= i < instants.skip(1).len() implies #[trigger] instants.skip(1)[i]
            - after.pools[pool].started_at < after.width && instants.skip(1)[i]
            - after.total.started_at < after.width by {
            assert(instants.skip(1)[i] == instants[i + 1]);
        }
        a_window_allows_its_whole_budget(after, pool, instants.skip(1));
    }
}

/// How many uploads of several pools are allowed, one after another.
pub open spec fn allowed_of_all(budgets: Budgets, asked: Seq<(Seq<u8>, int)>) -> int
    decreases asked.len(),
{
    if asked.len() == 0 {
        0
    } else {
        (if budgets.answer(asked[0].0, asked[0].1) == Charged::Allowed {
            1int
        } else {
            0
        }) + allowed_of_all(budgets.charged(asked[0].0, asked[0].1), asked.skip(1))
    }
}

/// While one shared window lasts, all pools together are allowed no more than the server's budget
/// has left, however many they are.
pub proof fn all_pools_share_one_budget(budgets: Budgets, asked: Seq<(Seq<u8>, int)>)
    requires
        budgets.within(),
        budgets.max_per_pool >= 0,
        0 <= budgets.max_total <= u32::MAX,
        forall|i: int|
            0 <= i < asked.len() ==> (#[trigger] asked[i]).1 - budgets.total.started_at
                < budgets.width,
    ensures
        allowed_of_all(budgets, asked) <= budgets.max_total - budgets.total.used,
    decreases asked.len(),
{
    if asked.len() > 0 {
        let (pool, now) = asked[0];
        let after = budgets.charged(pool, now);
        charging_stays_within(budgets, pool, now);
        assert(after.total.started_at == budgets.total.started_at);
        assert forall|i: int| 0 <= i < asked.skip(1).len() implies (#[trigger] asked.skip(1)[i]).1
            - after.total.started_at < after.width by {
            assert(asked.skip(1)[i] == asked[i + 1]);
        }
        all_pools_share_one_budget(after, asked.skip(1));
    }
}

/// What a window has spent of its budget at an instant: nothing once it is as old as a window gets.
pub open spec fn spent_at(window: Window, now: int, width: int) -> int {
    if now - window.started_at < width {
        window.used as int
    } else {
        0
    }
}

/// At every instant, what the two windows have spent by then decides: a pool is over where its own
/// window has spent its budget, and else the server where the shared window has spent the shared
/// one. A pool that was never charged has spent nothing.
pub proof fn the_two_windows_decide(budgets: Budgets, pool: Seq<u8>, now: int)
    requires
        budgets.max_per_pool > 0,
        budgets.max_total > 0,
    ensures
        ({
            let own = if budgets.pools.contains_key(pool) {
                spent_at(budgets.pools[pool], now, budgets.width)
            } else {
                0
            };
            let shared = spent_at(budgets.total, now, budgets.width);
            &&& budgets.answer(pool, now) == Charged::PoolIsOver <==> own >= budgets.max_per_pool
            &&& budgets.answer(pool, now) == Charged::ServerIsOver <==> own < budgets.max_per_pool
                && shared >= budgets.max_total
            &&& budgets.answer(pool, now) == Charged::Allowed <==> own < budgets.max_per_pool
                && shared < budgets.max_total
        }),
{
}

/// At every instant, a charge adds one to what the pool has spent unless it is over, and one to
/// what was spent of the shared budget where it is allowed; nothing else is spent by it.
pub proof fn a_charge_is_spent_once(budgets: Budgets, pool: Seq<u8>, other: Seq<u8>, now: int)
    requires
        budgets.width > 0,
        0 < budgets.max_per_pool <= u32::MAX,
        0 < budgets.max_total <= u32::MAX,
        i128::MIN <= now <= i128::MAX,
    ensures
        ({
            let after = budgets.charged(pool, now);
            let answer = budgets.answer(pool, now);
            let own = if budgets.pools.contains_key(pool) {
                spent_at(budgets.pools[pool], now, budgets.width)
            } else {
                0
            };
            &&& after.pools.contains_key(pool)
            &&& spent_at(after.pools[pool], now, budgets.width) == if answer == Charged::PoolIsOver {
                own
            } else {
                own + 1
            }
            &&& spent_at(after.total, now, budgets.width) == spent_at(
                budgets.total,
                now,
                budgets.width,
            ) + if answer == Charged::Allowed {
                1int
            } else {
                0
            }
            &&& other != pool && budgets.pools.contains_key(other) ==> after.pools.contains_key(
                other,
            ) && after.pools[other] == budgets.pools[other]
        }),
{
}

}
