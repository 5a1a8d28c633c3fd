use crate::dec::{clamp, tdiv, Dec, LIMIT, SCALE};
use crate::market::MarketplaceOrderUpdate;
use crate::order::{has_trade, is_terminal, next_status, status_rank, updated_order, Order, OrderSide, OrderStatus};
use crate::portfolio::{balances, credit_free, credit_locked};
use crate::simulation::{order_fills, settle_fill, tick_balances, SimulationMarketplace};
use crate::state::{age, session_profit, session_start, State};
use crate::strategy::{mul_v, LotRules, ScalpingStrategy, Skip, Step};
use crate::ticker::Ticker;
use crate::utils::{atr_spec, total, true_ranges, wilder, wsma_spec};
use vstd::prelude::*;

verus! {

pub open spec fn holding(v: (int, int)) -> int {
    v.0 + v.1
}

/// Reserving funds moves them from free to locked: free plus locked stays the same,
/// as long as neither side saturates.
pub proof fn lemma_reservation_conserves(free: int, locked: int, need: int)
    requires
        -LIMIT <= free - need <= LIMIT,
        -LIMIT <= locked + need <= LIMIT,
    ensures
        clamp(free - need) + clamp(locked + need) == free + locked,
{
}

/// A fill changes holdings only by what was traded: a sell adds its notional net of fee
/// to the quote held and takes its amount from the base held; a buy adds its amount net
/// of fee to the base held and takes its notional from the quote held. Every other
/// asset keeps its holdings. This holds where base and quote differ, both are held, and
/// no balance saturates.
pub proof fn lemma_fill_conserves(
    m: Map<Seq<char>, (int, int)>,
    t: Ticker,
    side: OrderSide,
    fee: int,
    x: int,
    p: int,
)
    requires
        t.base@ != t.quote@,
        m.contains_key(t.base@),
        m.contains_key(t.quote@),
        side == OrderSide::Sell ==> -LIMIT <= m[t.quote@].0 + mul_v(mul_v(p, x), clamp(SCALE - fee)) <= LIMIT,
        side == OrderSide::Sell ==> -LIMIT <= m[t.base@].1 - x <= LIMIT,
        side == OrderSide::Buy ==> -LIMIT <= m[t.base@].0 + mul_v(x, clamp(SCALE - fee)) <= LIMIT,
        side == OrderSide::Buy ==> -LIMIT <= m[t.quote@].1 - mul_v(p, x) <= LIMIT,
    ensures
        ({
            let n = settle_fill(m, t, side, fee, x, p);
            &&& n.dom() == m.dom()
            &&& forall|s: Seq<char>|
                m.contains_key(s) && s != t.base@ && s != t.quote@ ==> #[trigger] n[s] == m[s]
            &&& side == OrderSide::Sell ==> holding(n[t.quote@]) == holding(m[t.quote@]) + mul_v(
                mul_v(p, x),
                clamp(SCALE - fee),
            ) && holding(n[t.base@]) == holding(m[t.base@]) - x
            &&& side == OrderSide::Buy ==> holding(n[t.base@]) == holding(m[t.base@]) + mul_v(
                x,
                clamp(SCALE - fee),
            ) && holding(n[t.quote@]) == holding(m[t.quote@]) - mul_v(p, x)
        }),
{
    let n = settle_fill(m, t, side, fee, x, p);
    match side {
        OrderSide::Sell => {
            let m1 = credit_free(m, t.quote@, mul_v(mul_v(p, x), clamp(SCALE - fee)));
            assert(m1.dom() =~= m.dom());
            assert(n.dom() =~= m.dom());
        },
        OrderSide::Buy => {
            let m1 = credit_free(m, t.base@, mul_v(x, clamp(SCALE - fee)));
            assert(m1.dom() =~= m.dom());
            assert(n.dom() =~= m.dom());
        },
    }
}

/// Statuses only move forward along `Draft < Sent < Active < PendingCancel < terminal`,
/// and a terminal status is never left.
pub proof fn lemma_status_monotone(from: OrderStatus, to: OrderStatus)
    ensures
        status_rank(next_status(from, to)) >= status_rank(from),
        is_terminal(from) ==> next_status(from, to) == from,
{
}

/// An order update delivered twice changes nothing the second time: the fill is not
/// appended again and status, working time and exchange id stay.
pub proof fn lemma_update_idempotent(o: Order, n: Order, n2: Order, u: MarketplaceOrderUpdate)
    requires
        updated_order(o, n, u),
        updated_order(n, n2, u),
    ensures
        n2.same(n),
{
    if let Some(t) = u.trade {
        if !has_trade(o.trades@, t.id@) {
            assert(n.trades@[n.trades@.len() - 1] == t);
        }
        assert(has_trade(n.trades@, t.id@));
    }
}

/// A matching pass leaves every order's status where it was or moves it to `Executed`.
pub proof fn lemma_matching_status_monotone(o: crate::order::Order, n: crate::order::Order, f: Seq<(int, int, bool)>, time: u64)
    requires
        crate::simulation::filled_order(o, n, f, time),
        f.len() > 0 ==> o.status == OrderStatus::Active,
    ensures
        status_rank(n.status) >= status_rank(o.status),
{
}

/// Wilder smoothing of a constant series is that constant.
pub proof fn lemma_wsma_constant(p: Seq<int>, n: int, c: int)
    requires
        n > 0,
        p.len() >= n,
        forall|i: int| 0 <= i < n ==> #[trigger] p[i] == c,
        -LIMIT <= c <= LIMIT,
    ensures
        wsma_spec(p, n) == Some(c),
{
    lemma_wilder_constant(p, n, c, 0);
}

proof fn lemma_wilder_constant(p: Seq<int>, n: int, c: int, j: int)
    requires
        n > 0,
        p.len() >= n,
        0 <= j,
        forall|i: int| 0 <= i < n ==> #[trigger] p[i] == c,
        -LIMIT <= c <= LIMIT,
    ensures
        wilder(p, n, j) == c,
    decreases n - j,
{
    if j < n {
        lemma_wilder_constant(p, n, c, j + 1);
        assert(tdiv(0, n) == 0);
    } else {
        assert(p[n - 1] == c);
    }
}

/// The average true range of flat candles (high, low and previous close all equal) is zero.
pub proof fn lemma_atr_flat(c: Seq<(Dec, Dec, Dec)>, n: int)
    requires
        0 < n <= c.len(),
        forall|i: int| 0 <= i < n ==> (#[trigger] c[i]).0@ == c[i].1@ && c[i].1@ == c[i].2@,
    ensures
        atr_spec(c, n) == Some(0int),
{
    let s = true_ranges(c.subrange(0, n));
    assert forall|i: int| 0 <= i < s.len() implies #[trigger] s[i] == 0 by {
        assert(c.subrange(0, n)[i] == c[i]);
    }
    lemma_total_zero(s);
    assert(tdiv(0, n) == 0);
}

proof fn lemma_total_zero(s: Seq<int>)
    requires
        forall|i: int| 0 <= i < s.len() ==> #[trigger] s[i] == 0,
    ensures
        total(s) == 0,
    decreases s.len(),
{
    if s.len() > 0 {
        assert forall|i: int| 0 <= i < s.drop_last().len() implies #[trigger] s.drop_last()[i] == 0 by {
            assert(s.drop_last()[i] == s[i]);
        }
        lemma_total_zero(s.drop_last());
    }
}

/// Matching is deterministic: two simulated exchanges holding the same orders, books,
/// fee rate and balances produce the same fills for every order and end with the same
/// balances.
pub proof fn lemma_matching_deterministic(a: SimulationMarketplace, b: SimulationMarketplace)
    requires
        a.orders@ == b.orders@,
        a.order_book@ == b.order_book@,
        a.fees@ == b.fees@,
        balances(a.assets.assets@) == balances(b.assets.assets@),
    ensures
        forall|i: int|
            0 <= i < a.orders@.len() ==> #[trigger] order_fills(a.orders@[i], a.order_book@)
                == order_fills(b.orders@[i], b.order_book@),
        tick_balances(
            balances(a.assets.assets@),
            a.orders@,
            a.order_book@,
            a.fees@,
            a.orders@.len() as int,
        ) == tick_balances(
            balances(b.assets.assets@),
            b.orders@,
            b.order_book@,
            b.fees@,
            b.orders@.len() as int,
        ),
{
}

/// No reentry buy follows a sell younger than the reentry delay: every such sell is
/// skipped as `Reentry delay`, whatever the trend and prices.
pub proof fn lemma_reentry_delay(
    s: ScalpingStrategy,
    state: State,
    c: Seq<usize>,
    price: int,
    time: u64,
    rules: LotRules,
)
    requires
        forall|j: int| 0 <= j < c.len() ==> #[trigger] c[j] < state.orders@.len(),
    ensures
        ({
            let plan = s.reentry_plan(state, c, price, time, rules);
            &&& forall|j: int|
                0 <= j < plan.len() && #[trigger] plan[j] is Place ==> s.params.reentry_delay <= age(
                    time,
                    state.orders@[plan[j]->Place_0 as int].creation_time,
                )
            &&& c.len() > 0 && s.params.reentry_delay > age(
                time,
                state.orders@[c[0] as int].creation_time,
            ) ==> plan[0] == Step::Skip(Skip::ReentryDelay, c[0])
        }),
    decreases c.len(),
{
    if c.len() > 0 {
        let d = c.drop_first();
        assert forall|j: int| 0 <= j < d.len() implies #[trigger] d[j] < state.orders@.len() by {
            assert(d[j] == c[j + 1]);
        }
        lemma_reentry_delay(s, state, d, price, time, rules);
        lemma_plan_places_from(s, state, c, price, time, rules);
    }
}

/// Every `Place` of a reentry plan names a candidate that passed the checks before prices.
pub proof fn lemma_plan_places_from(
    s: ScalpingStrategy,
    state: State,
    c: Seq<usize>,
    price: int,
    time: u64,
    rules: LotRules,
)
    ensures
        ({
            let plan = s.reentry_plan(state, c, price, time, rules);
            forall|j: int|
                0 <= j < plan.len() && #[trigger] plan[j] is Place ==> s.reentry_pre(
                    state,
                    state.orders@[plan[j]->Place_0 as int],
                    time,
                ) is None
        }),
    decreases c.len(),
{
    if c.len() > 0 {
        let d = c.drop_first();
        lemma_plan_places_from(s, state, d, price, time, rules);
        let rest = s.reentry_plan(state, d, price, time, rules);
        let plan = s.reentry_plan(state, c, price, time, rules);
        match s.reentry_pre(state, state.orders@[c[0] as int], time) {
            Some(k) => {
                assert forall|j: int|
                    0 <= j < plan.len() && #[trigger] plan[j] is Place implies s.reentry_pre(
                        state,
                        state.orders@[plan[j]->Place_0 as int],
                        time,
                    ) is None by {
                    assert(plan[j] == rest[j - 1]);
                }
            },
            None => {
                let res = s.reentry_resistance(price);
                if res.len() > 0 {
                    assert forall|j: int|
                        0 <= j < plan.len() && #[trigger] plan[j] is Place implies s.reentry_pre(
                            state,
                            state.orders@[plan[j]->Place_0 as int],
                            time,
                        ) is None by {
                        if j < res.len() {
                            assert(plan[j] == Step::Skip(res[j], c[0]));
                        } else {
                            assert(plan[j] == rest[j - res.len()]);
                        }
                    }
                }
            },
        }
    }
}

/// A session that has made its profit and outlived its lifetime gets no reentry: no
/// reentry buy follows one of its sells.
pub proof fn lemma_terminating_session(
    s: ScalpingStrategy,
    state: State,
    c: Seq<usize>,
    price: int,
    time: u64,
    rules: LotRules,
)
    ensures
        ({
            let plan = s.reentry_plan(state, c, price, time, rules);
            forall|j: int|
                0 <= j < plan.len() && #[trigger] plan[j] is Place ==> {
                    let o = state.orders@[plan[j]->Place_0 as int];
                    !(o.session_id is Some && session_profit(state.orders@, o.session_id->Some_0@)
                        >= 0 && age(
                        time,
                        match session_start(state.orders@, o.session_id->Some_0@) {
                            Some(v) => v,
                            None => 0,
                        },
                    ) > s.params.session_profit_lifetime)
                }
        }),
{
    lemma_plan_places_from(s, state, c, price, time, rules);
}

} // verus!
