//! Decisions of the spread arbitrage strategy. Entry rule: buy Up and Down together when
//! the sum of their best asks lies below `1/(1+2*fee) - margin`; one leg always resolves
//! to $1.00. The run loop and a market cycle alternate outside work (fetching markets and
//! prices, placing orders, sleeping) with the decisions here, which map the loop's state
//! and what the outside work returned to the next state and action.

use vstd::prelude::*;
use crate::market::{BtcMarket, BtcMarketView, market_views};
use crate::time::{Timestamp, seconds_between, clock_now, NANOS_PER_SEC};

verus! {

/// Seconds to wait after a failed fetch of the market list.
pub const FETCH_RETRY_SECS: u64 = 30;

/// Seconds to wait when no active market exists.
pub const NO_MARKETS_WAIT_SECS: u64 = 60;

/// Seconds to wait when every active market expires too soon.
pub const EXPIRY_WAIT_SECS: u64 = 30;

/// Seconds to pause after a market cycle before looking for the next market.
pub const CYCLE_PAUSE_SECS: u64 = 10;

/// What the run loop does after fetching the market list.
#[derive(Clone, Copy, Debug, PartialEq, Eq, Structural)]
pub enum RunStep {
    /// The fetch failed: wait `FETCH_RETRY_SECS` and fetch again.
    RetryAfterError,
    /// No active market: wait `NO_MARKETS_WAIT_SECS` and fetch again.
    NoMarkets,
    /// Every market expires too soon; `next_expiry` is the end of the earliest one. Wait
    /// `EXPIRY_WAIT_SECS` and fetch again.
    AllExpireSoon { next_expiry: Timestamp },
    /// Run a market cycle on the market at `index` of the list, then pause
    /// `CYCLE_PAUSE_SECS`.
    Trade { index: usize },
}

/// A market has more than `min_secs` whole seconds left at instant `now`.
pub open spec fn tradable(m: BtcMarketView, now: Timestamp, min_secs: i64) -> bool {
    seconds_between(m.end_time, now) > min_secs
}

/// The first market, in list order, with more than `min_secs` seconds left at `now`.
pub open spec fn first_tradable(ms: Seq<BtcMarketView>, now: Timestamp, min_secs: i64) -> Option<int>
    decreases ms.len(),
{
    if ms.len() == 0 {
        None
    } else {
        match first_tradable(ms.drop_last(), now, min_secs) {
            Some(i) => Some(i),
            None => if tradable(ms.last(), now, min_secs) {
                Some(ms.len() - 1)
            } else {
                None
            },
        }
    }
}

/// The step the run loop takes at instant `now`, given the fetched list (`None` when the
/// fetch failed).
pub open spec fn run_step_spec(fetched: Option<Seq<BtcMarketView>>, now: Timestamp, min_secs: i64) -> RunStep {
    match fetched {
        None => RunStep::RetryAfterError,
        Some(ms) => if ms.len() == 0 {
            RunStep::NoMarkets
        } else {
            match first_tradable(ms, now, min_secs) {
                Some(i) => RunStep::Trade { index: i as usize },
                None => RunStep::AllExpireSoon { next_expiry: ms[0].end_time },
            }
        },
    }
}

/// The views of a fetched market list.
pub open spec fn fetched_view(fetched: Option<&Vec<BtcMarket>>) -> Option<Seq<BtcMarketView>> {
    match fetched {
        Some(ms) => Some(market_views(ms@)),
        None => None,
    }
}

/// The first index of `ms` whose market has more than `min_secs` seconds left at `now`.
pub fn find_tradable(ms: &Vec<BtcMarket>, now: Timestamp, min_secs: i64) -> (r: Option<usize>)
    ensures
        match r {
            Some(i) => first_tradable(market_views(ms@), now, min_secs) == Some(i as int),
            None => first_tradable(market_views(ms@), now, min_secs) is None,
        },
{
    let mut i: usize = 0;
    while i < ms.len()
        invariant
            i <= ms@.len(),
            first_tradable(market_views(ms@.take(i as int)), now, min_secs) is None,
        decreases ms@.len() - i,
    {
        let left = ms[i].end_time.whole_seconds_since(&now);
        assert(market_views(ms@.take(i + 1)).drop_last() =~= market_views(ms@.take(i as int)));
        if left > min_secs as i128 {
            proof {
                let vs = market_views(ms@);
                assert(vs.take(i + 1) =~= market_views(ms@.take(i + 1)));
                assert(vs.take(i + 1).last() == ms@[i as int]@);
                assert(tradable(vs.take(i + 1).last(), now, min_secs));
                assert(first_tradable(vs.take(i + 1), now, min_secs) == Some(i as int));
                lemma_first_tradable_prefix(vs, now, min_secs, i + 1);
            }
            return Some(i);
        }
        i += 1;
    }
    assert(ms@.take(ms@.len() as int) =~= ms@);
    None
}

/// Extending a list keeps the first tradable index of a prefix that has one.
proof fn lemma_first_tradable_prefix(ms: Seq<BtcMarketView>, now: Timestamp, min_secs: i64, k: int)
    requires
        0 <= k <= ms.len(),
        first_tradable(ms.take(k), now, min_secs) is Some,
    ensures
        first_tradable(ms, now, min_secs) == first_tradable(ms.take(k), now, min_secs),
    decreases ms.len() - k,
{
    if k < ms.len() {
        assert(ms.take(k + 1).drop_last() =~= ms.take(k));
        lemma_first_tradable_prefix(ms, now, min_secs, k + 1);
    } else {
        assert(ms.take(k) =~= ms);
    }
}

/// The market the run loop trades is the first one in the list with more than `min_secs`
/// seconds left; when there is none, no market in the list has that much time left.
pub proof fn lemma_first_tradable_is_earliest(ms: Seq<BtcMarketView>, now: Timestamp, min_secs: i64)
    ensures
        first_tradable(ms, now, min_secs) matches Some(i) ==> 0 <= i < ms.len() && tradable(
            ms[i],
            now,
            min_secs,
        ) && forall|j: int| 0 <= j < i ==> !tradable(#[trigger] ms[j], now, min_secs),
        first_tradable(ms, now, min_secs) is None ==> forall|j: int|
            0 <= j < ms.len() ==> !tradable(#[trigger] ms[j], now, min_secs),
    decreases ms.len(),
{
    if ms.len() > 0 {
        let prev = ms.drop_last();
        lemma_first_tradable_is_earliest(prev, now, min_secs);
        assert forall|j: int| 0 <= j < prev.len() implies #[trigger] prev[j] == ms[j] by {}
        match first_tradable(prev, now, min_secs) {
            Some(i) => {
                assert forall|j: int| 0 <= j < i implies !tradable(#[trigger] ms[j], now, min_secs) by {
                    assert(prev[j] == ms[j]);
                }
            },
            None => {
                assert forall|j: int| 0 <= j < ms.len() - 1 implies !tradable(
                    #[trigger] ms[j],
                    now,
                    min_secs,
                ) by {
                    assert(prev[j] == ms[j]);
                }
            },
        }
    }
}

/// The run loop's step at instant `now`, given the fetched list (`None` when the fetch failed).
pub fn plan_run_step(fetched: Option<&Vec<BtcMarket>>, now: Timestamp, min_secs: i64) -> (r: RunStep)
    ensures
        r == run_step_spec(
            fetched_view(fetched),
            now,
            min_secs,
        ),
        match fetched {
            Some(ms) => run_step_law(ms@, now, min_secs, r),
            None => r == RunStep::RetryAfterError,
        },
{
    match fetched {
        None => RunStep::RetryAfterError,
        Some(ms) => {
            let n = ms.len();
            proof {
                lemma_run_step(market_views(ms@), now, min_secs);
                let vs = market_views(ms@);
                assert(vs.len() == ms@.len());
                assert forall|j: int| 0 <= j < ms@.len() implies (#[trigger] ms@[j]).end_time
                    == vs[j].end_time by {}
            }
            let r = if n == 0 {
                RunStep::NoMarkets
            } else {
                match find_tradable(ms, now, min_secs) {
                    Some(i) => RunStep::Trade { index: i },
                    None => RunStep::AllExpireSoon { next_expiry: ms[0].end_time },
                }
            };
            r
        },
    }
}

/// What the run loop must do with a fetched list `ms` at instant `now`: wait when the list
/// is empty; otherwise trade the first market with more than `min_secs` whole seconds
/// left, and only when no market has that much time left, wait for the earliest one.
pub open spec fn run_step_law(ms: Seq<BtcMarket>, now: Timestamp, min_secs: i64, r: RunStep) -> bool {
    &&& (ms.len() == 0 <==> r == RunStep::NoMarkets)
    &&& ms.len() > 0 ==> (r is Trade || r is AllExpireSoon)
    &&& r matches RunStep::Trade { index } ==> {
        &&& index < ms.len()
        &&& seconds_between(ms[index as int].end_time, now) > min_secs
        &&& forall|j: int| 0 <= j < index ==> seconds_between(#[trigger] ms[j].end_time, now) <= min_secs
    }
    &&& r matches RunStep::AllExpireSoon { next_expiry } ==> {
        &&& ms.len() > 0
        &&& next_expiry == ms[0].end_time
        &&& forall|j: int| 0 <= j < ms.len() ==> seconds_between(#[trigger] ms[j].end_time, now) <= min_secs
    }
}

/// The run loop never waits on a non-empty list while some market in it has more than
/// `min_secs` seconds left, and trades the first such market; with an empty list it waits.
pub proof fn lemma_run_step(ms: Seq<BtcMarketView>, now: Timestamp, min_secs: i64)
    requires
        ms.len() <= usize::MAX,
    ensures
        ms.len() == 0 <==> run_step_spec(Some(ms), now, min_secs) == RunStep::NoMarkets,
        ms.len() > 0 ==> (run_step_spec(Some(ms), now, min_secs) is Trade || run_step_spec(
            Some(ms),
            now,
            min_secs,
        ) is AllExpireSoon),
        run_step_spec(Some(ms), now, min_secs) matches RunStep::Trade { index } ==> {
            &&& index < ms.len()
            &&& seconds_between(ms[index as int].end_time, now) > min_secs
            &&& forall|j: int|
                0 <= j < index ==> seconds_between(#[trigger] ms[j].end_time, now) <= min_secs
        },
        run_step_spec(Some(ms), now, min_secs) matches RunStep::AllExpireSoon { next_expiry } ==> {
            &&& ms.len() > 0
            &&& next_expiry == ms[0].end_time
            &&& forall|j: int|
                0 <= j < ms.len() ==> seconds_between(#[trigger] ms[j].end_time, now) <= min_secs
        },
        run_step_spec(None, now, min_secs) == RunStep::RetryAfterError,
{
    lemma_first_tradable_is_earliest(ms, now, min_secs);
}

/// The run loop's step at the current instant.
pub fn next_run_step(fetched: Option<&Vec<BtcMarket>>, min_secs: i64) -> (r: RunStep)
    ensures
        exists|now: Timestamp|
            now.nanos < NANOS_PER_SEC && r == #[trigger] run_step_spec(
                fetched_view(fetched),
                now,
                min_secs,
            ),
{
    let now = clock_now();
    plan_run_step(fetched, now, min_secs)
}

/// Whole seconds from the current instant to `end`, rounded toward zero.
pub fn seconds_left(end: &Timestamp) -> (r: i128)
    ensures
        exists|now: Timestamp|
            now.nanos < NANOS_PER_SEC && r == #[trigger] seconds_between(*end, now),
{
    let now = clock_now();
    end.whole_seconds_since(&now)
}

/// The market list fetched at `fetched_at` is due for a refresh at `now`: there is none
/// yet, or at least `interval_secs` whole seconds have passed since it was fetched.
pub open spec fn refresh_due_spec(fetched_at: Option<Timestamp>, now: Timestamp, interval_secs: u64) -> bool {
    match fetched_at {
        None => true,
        Some(t) => seconds_between(now, t) >= interval_secs,
    }
}

/// Whether the market list fetched at `fetched_at` is due for a refresh at `now`.
pub fn refresh_due_at(fetched_at: Option<Timestamp>, now: Timestamp, interval_secs: u64) -> (r: bool)
    ensures
        r == refresh_due_spec(fetched_at, now, interval_secs),
{
    match fetched_at {
        None => true,
        Some(t) => now.whole_seconds_since(&t) >= interval_secs as i128,
    }
}

/// Whether the market list fetched at `fetched_at` is due for a refresh now.
pub fn refresh_due(fetched_at: Option<Timestamp>, interval_secs: u64) -> (r: bool)
    ensures
        exists|now: Timestamp|
            now.nanos < NANOS_PER_SEC && r == #[trigger] refresh_due_spec(fetched_at, now, interval_secs),
{
    let now = clock_now();
    refresh_due_at(fetched_at, now, interval_secs)
}

/// What one poll of both legs' best asks returned.
#[derive(Clone, Copy, Debug, PartialEq, Eq, Structural)]
pub enum Quote {
    /// The best ask of either leg could not be fetched.
    Missing,
    /// Both best asks were fetched; `below_threshold` tells whether their sum lies strictly
    /// below the entry threshold.
    Priced { below_threshold: bool },
}

/// What a market cycle does after a poll.
#[derive(Clone, Copy, Debug, PartialEq, Eq, Structural)]
pub enum CycleAction {
    /// The market has expired: end the cycle. `bought` tells whether an entry was made.
    Finish { bought: bool },
    /// A price could not be fetched: wait for the next poll.
    PriceUnavailable,
    /// No entry now (already holding, or the sum is not below the threshold): wait for the
    /// next poll.
    Hold,
    /// Simulation: the entry is recorded at the polled sum without placing orders.
    EnterSimulated,
    /// Place market buy orders for both legs, then report with `orders_settled`.
    PlaceOrders,
}

/// The state of a market cycle: whether both legs are held, whether orders are only
/// simulated, and the fewest whole seconds before expiry at which it may still enter.
pub struct CycleState {
    pub bought: bool,
    pub simulation: bool,
    pub min_secs: i64,
}

/// One poll of a cycle in state `s` with `secs_left` whole seconds until expiry: it enters
/// only while nothing is held, the sum lies below the threshold, and at least
/// `s.min_secs` seconds remain.
pub open spec fn tick_spec(s: CycleState, secs_left: int, quote: Quote) -> (CycleState, CycleAction) {
    if secs_left <= 0 {
        (s, CycleAction::Finish { bought: s.bought })
    } else {
        match quote {
            Quote::Missing => (s, CycleAction::PriceUnavailable),
            Quote::Priced { below_threshold } => if !s.bought && below_threshold && secs_left
                >= s.min_secs {
                if s.simulation {
                    (
                        CycleState { bought: true, simulation: s.simulation, min_secs: s.min_secs },
                        CycleAction::EnterSimulated,
                    )
                } else {
                    (s, CycleAction::PlaceOrders)
                }
            } else {
                (s, CycleAction::Hold)
            },
        }
    }
}

/// The cycle state after both legs' orders returned: held when both succeeded.
pub open spec fn settle_spec(s: CycleState, up_ok: bool, down_ok: bool) -> CycleState {
    if up_ok && down_ok {
        CycleState { bought: true, simulation: s.simulation, min_secs: s.min_secs }
    } else {
        s
    }
}

/// What one poll must do: finish exactly when no whole second is left, reporting whether
/// both legs are held; report a missing price while the market lives; enter exactly when
/// nothing is held, the sum lies below the threshold and at least `min_secs` seconds
/// remain (by simulation or by placing orders, as the mode says); hold otherwise. Only a
/// simulated entry changes the state, and only by making the legs held.
pub open spec fn tick_law(s: CycleState, secs_left: int, quote: Quote, next: CycleState, a: CycleAction) -> bool {
    let may_enter = !s.bought && secs_left > 0 && secs_left >= s.min_secs && quote == (Quote::Priced {
        below_threshold: true,
    });
    &&& (a is Finish) == (secs_left <= 0)
    &&& a matches CycleAction::Finish { bought } ==> bought == s.bought
    &&& (a == CycleAction::PriceUnavailable) == (secs_left > 0 && quote == Quote::Missing)
    &&& (a == CycleAction::EnterSimulated) == (may_enter && s.simulation)
    &&& (a == CycleAction::PlaceOrders) == (may_enter && !s.simulation)
    &&& next.bought == (s.bought || a == CycleAction::EnterSimulated)
    &&& next.simulation == s.simulation
    &&& next.min_secs == s.min_secs
}

/// Every poll obeys `tick_law`.
pub proof fn lemma_tick(s: CycleState, secs_left: int, quote: Quote)
    ensures
        tick_law(s, secs_left, quote, tick_spec(s, secs_left, quote).0, tick_spec(s, secs_left, quote).1),
{
}

/// After both legs' orders return, the legs are held exactly when they were held before or
/// both orders succeeded; the mode and the entry bound do not change.
pub proof fn lemma_settle(s: CycleState, up_ok: bool, down_ok: bool)
    ensures
        settle_spec(s, up_ok, down_ok).bought == (s.bought || (up_ok && down_ok)),
        settle_spec(s, up_ok, down_ok).simulation == s.simulation,
        settle_spec(s, up_ok, down_ok).min_secs == s.min_secs,
{
}

/// The entry state machine of one market.
pub struct MarketCycle {
    bought: bool,
    simulation: bool,
    min_secs: i64,
}

impl View for MarketCycle {
    type V = CycleState;

    closed spec fn view(&self) -> CycleState {
        CycleState { bought: self.bought, simulation: self.simulation, min_secs: self.min_secs }
    }
}

impl MarketCycle {
    /// A cycle that holds nothing yet and enters only with at least `min_secs` whole
    /// seconds before expiry.
    pub fn new(simulation: bool, min_secs: i64) -> (r: Self)
        ensures
            r@ == (CycleState { bought: false, simulation, min_secs }),
    {
        MarketCycle { bought: false, simulation, min_secs }
    }

    /// Whether both legs are held.
    pub fn is_holding(&self) -> (r: bool)
        ensures
            r == self@.bought,
    {
        self.bought
    }

    /// Decides on one poll, `secs_left` whole seconds before expiry.
    pub fn on_tick(&mut self, secs_left: i128, quote: Quote) -> (a: CycleAction)
        ensures
            (final(self)@, a) == tick_spec(old(self)@, secs_left as int, quote),
            tick_law(old(self)@, secs_left as int, quote, final(self)@, a),
    {
        proof {
            lemma_tick(old(self)@, secs_left as int, quote);
        }
        if secs_left <= 0 {
            return CycleAction::Finish { bought: self.bought };
        }
        match quote {
            Quote::Missing => CycleAction::PriceUnavailable,
            Quote::Priced { below_threshold } => {
                if !self.bought && below_threshold && secs_left >= self.min_secs as i128 {
                    if self.simulation {
                        self.bought = true;
                        CycleAction::EnterSimulated
                    } else {
                        CycleAction::PlaceOrders
                    }
                } else {
                    CycleAction::Hold
                }
            },
        }
    }

    /// Records the outcome of both legs' orders; returns whether the entry is now made.
    pub fn orders_settled(&mut self, up_ok: bool, down_ok: bool) -> (entered: bool)
        ensures
            final(self)@ == settle_spec(old(self)@, up_ok, down_ok),
            entered == (up_ok && down_ok),
            final(self)@.bought == (old(self)@.bought || (up_ok && down_ok)),
            final(self)@.simulation == old(self)@.simulation,
            final(self)@.min_secs == old(self)@.min_secs,
    {
        if up_ok && down_ok {
            self.bought = true;
            true
        } else {
            false
        }
    }
}

/// Something that happens to a market cycle: a poll, or the return of both legs' orders.
pub enum CycleEvent {
    Tick { secs_left: int, quote: Quote },
    Settled { up_ok: bool, down_ok: bool },
}

/// The cycle state after one event.
pub open spec fn cycle_step(s: CycleState, e: CycleEvent) -> CycleState {
    match e {
        CycleEvent::Tick { secs_left, quote } => tick_spec(s, secs_left, quote).0,
        CycleEvent::Settled { up_ok, down_ok } => settle_spec(s, up_ok, down_ok),
    }
}

/// The number of events of `trace` that make an entry (turn "not held" into "held").
pub open spec fn entries(s: CycleState, trace: Seq<CycleEvent>) -> nat
    decreases trace.len(),
{
    if trace.len() == 0 {
        0
    } else {
        let next = cycle_step(s, trace[0]);
        (if !s.bought && next.bought {
            1nat
        } else {
            0nat
        }) + entries(next, trace.skip(1))
    }
}

/// A market is entered at most once: whatever polls and order outcomes follow, a cycle
/// makes at most one entry, and none once it holds both legs.
pub proof fn lemma_at_most_one_entry(s: CycleState, trace: Seq<CycleEvent>)
    ensures
        entries(s, trace) <= 1,
        s.bought ==> entries(s, trace) == 0,
    decreases trace.len(),
{
    if trace.len() > 0 {
        lemma_at_most_one_entry(cycle_step(s, trace[0]), trace.skip(1));
    }
}

/// In simulation mode a poll never places orders, and the mode never changes.
pub proof fn lemma_simulation_places_no_orders(s: CycleState, secs_left: int, quote: Quote)
    requires
        s.simulation,
    ensures
        tick_spec(s, secs_left, quote).1 != CycleAction::PlaceOrders,
        tick_spec(s, secs_left, quote).0.simulation,
{
}

/// A cycle ends exactly when the market has no whole second left, and enters only when
/// the polled sum lies below the threshold, nothing is held yet, and at least the
/// cycle's `min_secs` seconds remain before expiry.
pub proof fn lemma_cycle_finish_and_entry(s: CycleState, secs_left: int, quote: Quote)
    ensures
        (tick_spec(s, secs_left, quote).1 is Finish) == (secs_left <= 0),
        (tick_spec(s, secs_left, quote).1 == CycleAction::EnterSimulated || tick_spec(
            s,
            secs_left,
            quote,
        ).1 == CycleAction::PlaceOrders) ==> (!s.bought && secs_left > 0 && secs_left >= s.min_secs
            && quote == (Quote::Priced { below_threshold: true })),
{
}

} // verus!
