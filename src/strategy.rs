use crate::dec::{ceil_div, clamp, tdiv, Dec, SCALE};
use crate::market::{MarketplaceBook, MarketplaceCandle, MarketplaceTrade};
use crate::order::{Order, OrderSide, OrderStatus, OrderType};
use crate::portfolio::Portfolio;
use crate::state::{
    active_session_ids, age, matching_indices, session_profit, session_start, sort_indices,
    OrderListFilters, OrderListSort, OrderListSortBy, State,
};
use crate::ticker::Ticker;
use crate::utils::{
    atr, atr_spec, find_price_clusters, price_clusters, sma, sma_spec, vals, wsma, wsma_spec,
    PriceClusterSide,
};
use vstd::prelude::*;
use vstd::string::StringExecFns;

verus! {

broadcast use crate::dec::lemma_dec_bounded;

/// What a strategy decides on a market event.
#[derive(Debug)]
pub enum StrategyAction {
    Nothing,
    PlaceOrder { order: Order },
    Ignore { ticker: Ticker, reason: String, details: Vec<Dec> },
    Break { ticker: Ticker, reason: String, details: Vec<Dec> },
    Cancel { order_id: String, reason: String, details: Vec<Dec> },
}

#[derive(Debug)]
pub enum StrategyEvent {
    Action(StrategyAction),
}

/// Everything that travels between the parts of a running system.
#[derive(Debug)]
pub enum AppEvent {
    State(crate::state::StateEvent),
    Strategy(StrategyEvent),
    MarketPlace(crate::market::MarketplaceEvent),
}

/// Why an opportunity was passed over.
#[derive(Debug, Clone, Copy, PartialEq, Eq, Structural)]
pub enum Skip {
    SellNoFunds,
    NoProfit,
    HoldBull,
    ReentryDelay,
    ReentryNoFunds,
    TerminatingSession,
    ReentryShortResistance,
    ReentryLongResistance,
    EntryNoFunds,
    EntryMaxSessions,
    EntryPriceDown,
    EntryBelowSupport,
}

pub open spec fn skip_text(s: Skip) -> Seq<char> {
    match s {
        Skip::SellNoFunds => "Sell no funds"@,
        Skip::NoProfit => "No profit"@,
        Skip::HoldBull => "Hold bull"@,
        Skip::ReentryDelay => "Reentry delay"@,
        Skip::ReentryNoFunds => "Reentry no funds"@,
        Skip::TerminatingSession => "Terminating session"@,
        Skip::ReentryShortResistance => "Reentry short resistance > price"@,
        Skip::ReentryLongResistance => "Reentry long resistance > price"@,
        Skip::EntryNoFunds => "Entry no funds"@,
        Skip::EntryMaxSessions => "Entry max sessions"@,
        Skip::EntryPriceDown => "Entry price down"@,
        Skip::EntryBelowSupport => "Entry price < support"@,
    }
}

/// The text of a skip reason.
pub fn skip_reason(s: Skip) -> (r: String)
    ensures
        r@ == skip_text(s),
{
    match s {
        Skip::SellNoFunds => String::from_str("Sell no funds"),
        Skip::NoProfit => String::from_str("No profit"),
        Skip::HoldBull => String::from_str("Hold bull"),
        Skip::ReentryDelay => String::from_str("Reentry delay"),
        Skip::ReentryNoFunds => String::from_str("Reentry no funds"),
        Skip::TerminatingSession => String::from_str("Terminating session"),
        Skip::ReentryShortResistance => String::from_str("Reentry short resistance > price"),
        Skip::ReentryLongResistance => String::from_str("Reentry long resistance > price"),
        Skip::EntryNoFunds => String::from_str("Entry no funds"),
        Skip::EntryMaxSessions => String::from_str("Entry max sessions"),
        Skip::EntryPriceDown => String::from_str("Entry price down"),
        Skip::EntryBelowSupport => String::from_str("Entry price < support"),
    }
}

/// An `Ignore` of market `t` for reason `s`, reporting the figures `d`.
pub open spec fn is_ignore(a: StrategyAction, t: Ticker, s: Skip, d: Seq<int>) -> bool {
    match a {
        StrategyAction::Ignore { ticker, reason, details } => ticker == t && reason@ == skip_text(s)
            && vals(details@) == d,
        _ => false,
    }
}

fn ignore(t: &Ticker, s: Skip, details: Vec<Dec>) -> (r: StrategyAction)
    ensures
        is_ignore(r, *t, s, vals(details@)),
{
    StrategyAction::Ignore { ticker: t.clone(), reason: skip_reason(s), details }
}

fn no_figures() -> (r: Vec<Dec>)
    ensures
        vals(r@) == Seq::<int>::empty(),
{
    let r: Vec<Dec> = Vec::new();
    proof {
        assert(vals(r@) =~= Seq::<int>::empty());
    }
    r
}

fn figure(a: Dec) -> (r: Vec<Dec>)
    ensures
        vals(r@) == seq![a@],
{
    let mut r: Vec<Dec> = Vec::new();
    r.push(a);
    proof {
        assert(vals(r@) =~= seq![a@]);
    }
    r
}

fn figures(a: Dec, b: Dec) -> (r: Vec<Dec>)
    ensures
        vals(r@) == seq![a@, b@],
{
    let mut r: Vec<Dec> = Vec::new();
    r.push(a);
    r.push(b);
    proof {
        assert(vals(r@) =~= seq![a@, b@]);
    }
    r
}

/// One step of a stage's decision: the candidate at this index skipped for a reason, or
/// its order placed. The entry stage, which has no candidate, gives `usize::MAX`.
#[derive(Debug, Clone, Copy, PartialEq, Eq, Structural)]
pub enum Step {
    Skip(Skip, usize),
    Place(usize),
}

#[derive(Debug, Clone, Copy, PartialEq, Eq, Structural)]
pub enum PriceTrend {
    Up,
    Down,
    Bull,
    Crash,
}

/// Trend and support/resistance levels, refreshed once per closed candle.
#[derive(Debug, Clone, Copy)]
pub struct PriceStats {
    pub short_trend: Option<PriceTrend>,
    pub long_trend: Option<PriceTrend>,
    pub short_support: Option<Dec>,
    pub long_support: Option<Dec>,
    pub short_resistance: Option<Dec>,
    pub long_resistance: Option<Dec>,
}

impl Default for PriceStats {
    fn default() -> (r: PriceStats)
        ensures
            r.short_trend is None && r.long_trend is None && r.short_support is None
                && r.long_support is None && r.short_resistance is None && r.long_resistance is None,
    {
        PriceStats {
            short_trend: None,
            long_trend: None,
            short_support: None,
            long_support: None,
            short_resistance: None,
            long_resistance: None,
        }
    }
}

/// Settings of the scalping strategy. Durations are in milliseconds; `target_profit`
/// is an absolute amount of quote, whatever the position size.
#[derive(Debug, Clone, Copy)]
pub struct ScalpingParams {
    pub target_profit: Dec,
    pub quote_amount: Dec,
    pub entry_delay: u64,
    pub reentry_delay: u64,
    pub session_count: u8,
    pub session_profit_lifetime: u64,
}

/// An exchange's quantity rules for a market.
#[derive(Debug, Clone, Copy)]
pub struct LotRules {
    pub step_size: Dec,
    pub min_qty: Dec,
    pub max_qty: Dec,
    pub min_notional: Dec,
}

pub open spec fn opt_val(o: Option<Dec>) -> Option<int> {
    match o {
        Some(d) => Some(d@),
        None => None,
    }
}

pub open spec fn mul_v(a: int, b: int) -> int {
    clamp(tdiv(a * b, SCALE as int))
}

pub open spec fn div_v(a: int, b: int) -> int {
    clamp(tdiv(a * SCALE, b))
}

pub open spec fn ceil_step(x: int, s: int) -> int {
    if s > 0 {
        clamp(ceil_div(x, s) * s)
    } else {
        clamp(ceil_div(-x, -s) * s)
    }
}

/// Quotient rounded up to ten places, for a positive divisor.
pub open spec fn div_up(a: int, b: int) -> int {
    clamp(ceil_div(a * SCALE, b))
}

/// The amount an order of `amount` at `price` takes under the lot rules: rounded up to
/// the step, brought within the quantity bounds, raised to reach the minimum notional;
/// `None` when no amount within the bounds reaches it, or the step is not positive.
pub open spec fn adjusted_amount(amount: int, price: int, r: LotRules) -> Option<int> {
    let step = r.step_size@;
    let a1 = ceil_step(amount, step);
    let a2 = if a1 < r.min_qty@ {
        r.min_qty@
    } else {
        a1
    };
    let a3 = if a2 > r.max_qty@ {
        r.max_qty@
    } else {
        a2
    };
    let short = mul_v(a3, price) < r.min_notional@;
    if step <= 0 || (short && price <= 0) {
        None
    } else {
        let a4 = if short {
            ceil_step(div_up(r.min_notional@, price), step)
        } else {
            a3
        };
        if a4 < r.min_qty@ || a4 > r.max_qty@ || mul_v(a4, price) < r.min_notional@ {
            None
        } else {
            Some(a4)
        }
    }
}

/// Quote notional of an adjusted order: amount times price, rounded up to a cent.
pub open spec fn adjusted_quote(a: int, price: int) -> int {
    ceil_step(mul_v(a, price), SCALE / 100)
}

/// Fits an order's amount to the lot rules and sets its quote notional; fails, changing
/// nothing, where no amount fits.
pub fn adjust_order_price_and_amount(order: &mut Order, rules: &LotRules) -> (r: Result<(), String>)
    ensures
        match adjusted_amount(old(order).amount@, old(order).price@, *rules) {
            Some(a) => {
                &&& r is Ok
                &&& final(order).amount@ == a
                &&& rules.min_qty@ <= a <= rules.max_qty@
                &&& mul_v(a, old(order).price@) >= rules.min_notional@
                &&& final(order).quote_amount@ == adjusted_quote(a, old(order).price@)
                &&& final(order).fees == old(order).fees
                &&& final(order).filled_amount == old(order).filled_amount
                &&& final(order).cumulative_quote_amount == old(order).cumulative_quote_amount
                &&& final(order).working_time == old(order).working_time
                &&& final(order).id == old(order).id
                &&& final(order).ticker == old(order).ticker
                &&& final(order).side == old(order).side
                &&& final(order).order_type == old(order).order_type
                &&& final(order).status == old(order).status
                &&& final(order).price == old(order).price
                &&& final(order).creation_time == old(order).creation_time
                &&& final(order).session_id == old(order).session_id
                &&& final(order).prev_order_id == old(order).prev_order_id
                &&& final(order).next_order_id == old(order).next_order_id
                &&& final(order).trades@ == old(order).trades@
            },
            None => r is Err && *final(order) == *old(order),
        },
{
    let step = rules.step_size;
    if step.le(&Dec::zero()) {
        return Err(String::from_str("No step size"));
    }
    let price = order.price;
    let mut amount = order.amount.ceil_to_step(step);
    if amount.lt(&rules.min_qty) {
        amount = rules.min_qty;
    }
    if amount.gt(&rules.max_qty) {
        amount = rules.max_qty;
    }
    let notional = amount.mul(price);
    if notional.lt(&rules.min_notional) {
        if price.le(&Dec::zero()) {
            return Err(String::from_str("No price"));
        }
        amount = rules.min_notional.div_ceil(price).ceil_to_step(step);
    }
    if amount.lt(&rules.min_qty) || amount.gt(&rules.max_qty) || amount.mul(price).lt(
        &rules.min_notional,
    ) {
        return Err(String::from_str("Adjusted amount not within allowed quantity range"));
    }
    let cent = Dec::from_units(100_000_000);
    order.amount = amount;
    order.quote_amount = amount.mul(price).ceil_to_step(cent);
    Ok(())
}

/// Classifies the move of a fast average against a slow one: beyond one percent of
/// the slow average it is `Bull` or `Crash`, otherwise `Up` or `Down`; none when equal.
pub open spec fn trend_spec(fast: int, slow: int) -> Option<PriceTrend> {
    if fast > slow {
        if slow > 0 && div_v(clamp(fast - slow), slow) > SCALE / 100 {
            Some(PriceTrend::Bull)
        } else {
            Some(PriceTrend::Up)
        }
    } else if fast < slow {
        if slow > 0 && div_v(clamp(slow - fast), slow) > SCALE / 100 {
            Some(PriceTrend::Crash)
        } else {
            Some(PriceTrend::Down)
        }
    } else {
        None
    }
}

pub fn classify_trend(fast: Dec, slow: Dec) -> (r: Option<PriceTrend>)
    ensures
        r == trend_spec(fast@, slow@),
{
    let one_percent = Dec::from_units(100_000_000);
    let zero = Dec::zero();
    if fast.gt(&slow) {
        if slow.gt(&zero) && fast.sub(slow).div(slow).gt(&one_percent) {
            Some(PriceTrend::Bull)
        } else {
            Some(PriceTrend::Up)
        }
    } else if fast.lt(&slow) {
        if slow.gt(&zero) && slow.sub(fast).div(slow).gt(&one_percent) {
            Some(PriceTrend::Crash)
        } else {
            Some(PriceTrend::Down)
        }
    } else {
        None
    }
}

/// Largest value below `p`.
pub open spec fn max_below(s: Seq<int>, p: int) -> Option<int>
    decreases s.len(),
{
    if s.len() == 0 {
        None
    } else {
        let rest = max_below(s.drop_last(), p);
        if s.last() < p {
            match rest {
                Some(m) => Some(
                    if m >= s.last() {
                        m
                    } else {
                        s.last()
                    },
                ),
                None => Some(s.last()),
            }
        } else {
            rest
        }
    }
}

/// Smallest value above `p`.
pub open spec fn min_above(s: Seq<int>, p: int) -> Option<int>
    decreases s.len(),
{
    if s.len() == 0 {
        None
    } else {
        let rest = min_above(s.drop_last(), p);
        if s.last() > p {
            match rest {
                Some(m) => Some(
                    if m <= s.last() {
                        m
                    } else {
                        s.last()
                    },
                ),
                None => Some(s.last()),
            }
        } else {
            rest
        }
    }
}

pub open spec fn closes(h: Seq<MarketplaceCandle>) -> Seq<int> {
    h.map_values(|c: MarketplaceCandle| c.close_price@)
}

pub open spec fn lows(h: Seq<MarketplaceCandle>) -> Seq<int> {
    h.map_values(|c: MarketplaceCandle| c.low_price@)
}

/// (high, low, previous close) of each candle that has an older one.
pub open spec fn ranges(h: Seq<MarketplaceCandle>) -> Seq<(Dec, Dec, Dec)> {
    Seq::new(
        (if h.len() > 0 {
            h.len() - 1
        } else {
            0
        }) as nat,
        |i: int| (h[i].high_price, h[i].low_price, h[i + 1].close_price),
    )
}

pub open spec fn first_n(s: Seq<int>, n: int) -> Seq<int> {
    if s.len() <= n {
        s
    } else {
        s.subrange(0, n)
    }
}

/// Nearest support below `price` among the lows of the `n` most recent candles.
pub open spec fn support_spec(h: Seq<MarketplaceCandle>, n: int, tol: int, price: int) -> Option<int> {
    max_below(price_clusters(first_n(lows(h), n), tol, PriceClusterSide::Support), price)
}

/// Nearest resistance above `price` among the lows of the `n` most recent candles.
pub open spec fn resistance_spec(h: Seq<MarketplaceCandle>, n: int, tol: int, price: int) -> Option<
    int,
> {
    min_above(price_clusters(first_n(lows(h), n), tol, PriceClusterSide::Resistance), price)
}

/// Half of an amount, as the tolerance taken from a volatility.
pub open spec fn half(x: int) -> int {
    mul_v(x, SCALE / 2)
}

/// Whether every average that the statistics need is available.
pub open spec fn stats_available(h: Seq<MarketplaceCandle>) -> bool {
    &&& wsma_spec(closes(h), 120) is Some
    &&& sma_spec(closes(h), 120) is Some
    &&& atr_spec(ranges(h), 120) is Some
}

/// The statistics of a recent-first candle history at `price`.
pub open spec fn stats_match(s: PriceStats, h: Seq<MarketplaceCandle>, price: int) -> bool {
    let w120 = wsma_spec(closes(h), 120)->Some_0;
    let w14 = wsma_spec(closes(h), 14)->Some_0;
    let w5 = wsma_spec(closes(h), 5)->Some_0;
    let a120 = atr_spec(ranges(h), 120)->Some_0;
    let a14 = atr_spec(ranges(h), 14)->Some_0;
    &&& s.short_trend == trend_spec(w5, w14)
    &&& s.long_trend == trend_spec(w14, w120)
    &&& opt_val(s.long_support) == support_spec(h, 120, half(a120), price)
    &&& opt_val(s.short_support) == support_spec(h, 14, half(a14), price)
    &&& opt_val(s.long_resistance) == resistance_spec(h, 120, half(a120), price)
    &&& opt_val(s.short_resistance) == resistance_spec(h, 14, half(a14), price)
}

pub open spec fn funds_ok(p: Portfolio, sym: Seq<char>, need: int) -> bool {
    p.index_of(sym) >= 0 && p.assets@[p.index_of(sym)].amount@ >= need
}

/// Profit of selling `amount` at `price` net of the fee rate, over what the buy cost.
pub open spec fn sell_profit(amount: int, price: int, fees: int, cost: int) -> int {
    clamp(mul_v(mul_v(amount, price), clamp(SCALE - fees)) - cost)
}

pub open spec fn open_buy(o: Order, t: Ticker) -> bool {
    o.ticker.same(t) && o.side == OrderSide::Buy && o.status == OrderStatus::Executed
        && o.next_order_id is None
}

pub open spec fn open_sell(o: Order, t: Ticker) -> bool {
    &&& o.ticker.same(t)
    &&& o.side == OrderSide::Sell
    &&& o.next_order_id is None
    &&& (o.status == OrderStatus::Executed || o.status == OrderStatus::Active || o.status
        == OrderStatus::Sent || o.status == OrderStatus::Draft)
}

pub open spec fn in_flight(o: Order, t: Ticker) -> bool {
    o.ticker.same(t) && (o.status == OrderStatus::Draft || o.status == OrderStatus::Sent
        || o.status == OrderStatus::Active)
}

pub open spec fn pending_buy(o: Order, t: Ticker) -> bool {
    o.ticker.same(t) && o.side == OrderSide::Buy && (o.status == OrderStatus::Sent || o.status
        == OrderStatus::Draft)
}

pub open spec fn skips(s: Seq<Skip>, i: usize) -> Seq<Step> {
    s.map_values(|k: Skip| Step::Skip(k, i))
}

/// Free amount of an asset: zero when it is not held.
pub open spec fn free_of(p: Portfolio, sym: Seq<char>) -> int {
    if p.index_of(sym) >= 0 {
        p.assets@[p.index_of(sym)].amount@
    } else {
        0
    }
}

/// The window over which open sessions are counted before an entry: one hour.
pub const SESSION_WINDOW_MS: u64 = 3_600_000;

/// Most candles kept; a new candle beyond it drops the oldest.
pub const CANDLE_HISTORY: usize = 120;

/// Most trades kept.
pub const TRADE_HISTORY: usize = 500;

/// Per-market scalping strategy: recent-first candle and trade histories and the
/// statistics computed from them.
#[derive(Debug)]
pub struct ScalpingStrategy {
    pub ticker: Ticker,
    pub params: ScalpingParams,
    pub trade_event_history: Vec<MarketplaceTrade>,
    pub candle_event_history: Vec<MarketplaceCandle>,
    pub price_stats: PriceStats,
    pub initialized: bool,
}


pub open spec fn sell_action_ok(
    a: StrategyAction,
    st: Step,
    s: ScalpingStrategy,
    state: State,
    price: int,
    fees: int,
    time: u64,
) -> bool {
    let t = s.ticker;
    let orders = state.orders@;
    match st {
        Step::Skip(k, i) => is_ignore(
            a,
            t,
            k,
            s.skip_details(state, k, orders[i as int], price, fees),
        ),
        Step::Place(i) => match a {
            StrategyAction::PlaceOrder { order } => {
                let b = orders[i as int];
                &&& order.ticker == t
                &&& order.side == OrderSide::Sell
                &&& order.order_type == OrderType::Market
                &&& order.status == OrderStatus::Draft
                &&& order.amount == b.filled_amount
                &&& order.price@ == price
                &&& order.creation_time == time
                &&& order.prev_order_id == Some(b.id)
                &&& order.session_id == b.session_id
            },
            _ => false,
        },
    }
}

impl ScalpingStrategy {
    /// The figures a skip reports about candidate `o`: free and wanted amounts for want
    /// of funds, the profit that fell short, the session profit of a terminated session;
    /// nothing for the other reasons.
    pub open spec fn skip_details(
        self,
        state: State,
        k: Skip,
        o: Order,
        price: int,
        fees: int,
    ) -> Seq<int> {
        match k {
            Skip::SellNoFunds => seq![
                free_of(state.portfolio, self.ticker.base@),
                o.filled_amount@,
            ],
            Skip::NoProfit => seq![
                sell_profit(o.filled_amount@, price, fees, o.cumulative_quote_amount@),
            ],
            Skip::ReentryNoFunds => seq![free_of(state.portfolio, self.ticker.quote@), price],
            Skip::TerminatingSession => seq![
                session_profit(state.orders@, o.session_id->Some_0@),
            ],
            Skip::EntryNoFunds => seq![
                free_of(state.portfolio, self.ticker.quote@),
                self.params.quote_amount@,
            ],
            _ => Seq::empty(),
        }
    }

    pub open spec fn sell_skip(self, state: State, b: Order, price: int, fees: int) -> Option<Skip> {
        if !funds_ok(state.portfolio, self.ticker.base@, b.filled_amount@) {
            Some(Skip::SellNoFunds)
        } else if sell_profit(b.filled_amount@, price, fees, b.cumulative_quote_amount@)
            < self.params.target_profit@ {
            Some(Skip::NoProfit)
        } else if self.price_stats.short_trend == Some(PriceTrend::Bull) {
            Some(Skip::HoldBull)
        } else {
            None
        }
    }

    /// Open executed buys of this market, oldest first.
    pub open spec fn sell_candidates(self, state: State) -> Seq<usize> {
        sort_indices(
            state.orders@,
            matching_indices(state.orders@, |o: Order| open_buy(o, self.ticker)),
            true,
        )
    }

    /// The sell stage over the candidates `c`: each skipped for a reason, until one is sold.
    pub open spec fn sell_plan(self, state: State, c: Seq<usize>, price: int, fees: int) -> Seq<
        Step,
    >
        decreases c.len(),
    {
        if c.len() == 0 {
            Seq::empty()
        } else {
            match self.sell_skip(state, state.orders@[c[0] as int], price, fees) {
                Some(k) => seq![Step::Skip(k, c[0])] + self.sell_plan(state, c.drop_first(), price, fees),
                None => seq![Step::Place(c[0])],
            }
        }
    }

    pub fn new(ticker: Ticker, params: ScalpingParams) -> (r: ScalpingStrategy)
        ensures
            r.ticker == ticker,
            r.params == params,
            r.trade_event_history@.len() == 0,
            r.candle_event_history@.len() == 0,
            !r.initialized,
    {
        ScalpingStrategy {
            ticker,
            params,
            trade_event_history: Vec::new(),
            candle_event_history: Vec::new(),
            price_stats: PriceStats::default(),
            initialized: false,
        }
    }

    /// Sell stage: for each open executed buy, oldest first, skip it for want of base
    /// funds, for a profit under the target, or in a bull run; otherwise sell its filled
    /// amount at `current_price` and stop.
    pub fn process_sell(&self, state: &State, fees: Dec, current_price: Dec, current_time: u64) -> (r:
        Vec<StrategyAction>)
        ensures
            r@.len() == self.sell_plan(
                *state,
                self.sell_candidates(*state),
                current_price@,
                fees@,
            ).len(),
            forall|j: int|
                0 <= j < r@.len() ==> sell_action_ok(
                    #[trigger] r@[j],
                    self.sell_plan(*state, self.sell_candidates(*state), current_price@, fees@)[j],
                    *self,
                    *state,
                    current_price@,
                    fees@,
                    current_time,
                ),
    {
        let mut status: Vec<OrderStatus> = Vec::new();
        status.push(OrderStatus::Executed);
        let filters = OrderListFilters {
            ticker: Some(self.ticker.clone()),
            side: Some(OrderSide::Buy),
            status,
            session: None,
            strategy: None,
            has_child: Some(false),
        };
        proof {
            assert(filters.status@ =~= seq![OrderStatus::Executed]);
            assert forall|o: Order|
                #[trigger] crate::state::filter_pred(filters)(o) == open_buy(o, self.ticker) by {
                if o.status == OrderStatus::Executed {
                    assert(filters.status@[0] == o.status);
                }
            }
            crate::state::lemma_matching_same(
                state.orders@,
                crate::state::filter_pred(filters),
                |o: Order| open_buy(o, self.ticker),
            );
        }
        let cands = state.find_indices(&filters, &OrderListSort { by: OrderListSortBy::Date, asc: true });
        proof {
            assert(cands@.subrange(0, cands@.len() as int) =~= cands@);
            assert(Seq::<Step>::empty() + self.sell_plan(*state, cands@, current_price@, fees@)
                =~= self.sell_plan(*state, cands@, current_price@, fees@));
        }
        let ghost plan = self.sell_plan(*state, cands@, current_price@, fees@);
        let one = Dec::one();
        let mut actions: Vec<StrategyAction> = Vec::new();
        let ghost mut done: Seq<Step> = Seq::empty();
        let mut placed = false;
        let mut i: usize = 0;
        while i < cands.len() && !placed
            invariant
                i <= cands@.len(),
                one@ == SCALE,
                forall|q: int| 0 <= q < cands@.len() ==> #[trigger] cands@[q] < state.orders@.len(),
                plan == self.sell_plan(*state, cands@, current_price@, fees@),
                placed ==> done == plan,
                !placed ==> done + self.sell_plan(
                    *state,
                    cands@.subrange(i as int, cands@.len() as int),
                    current_price@,
                    fees@,
                ) == plan,
                actions@.len() == done.len(),
                forall|j: int|
                    0 <= j < actions@.len() ==> sell_action_ok(
                        #[trigger] actions@[j],
                        done[j],
                        *self,
                        *state,
                        current_price@,
                        fees@,
                        current_time,
                    ),
            decreases cands@.len() - i,
        {
            let k = cands[i];
            let b = &state.orders[k];
            let ghost rest = cands@.subrange(i as int, cands@.len() as int);
            proof {
                assert(rest[0] == k);
                assert(rest.drop_first() =~= cands@.subrange(i + 1, cands@.len() as int));
            }
            let amount = b.filled_amount;
            let skip = if !state.portfolio.check_funds(self.ticker.base.as_str(), amount) {
                let free = state.portfolio.free_amount(self.ticker.base.as_str());
                Some((Skip::SellNoFunds, figures(free, amount)))
            } else {
                let receive = amount.mul(current_price).mul(one.sub(fees));
                let take_profit = receive.sub(b.cumulative_quote_amount);
                if take_profit.lt(&self.params.target_profit) {
                    Some((Skip::NoProfit, figure(take_profit)))
                } else if self.price_stats.short_trend == Some(PriceTrend::Bull) {
                    Some((Skip::HoldBull, no_figures()))
                } else {
                    None
                }
            };
            match skip {
                Some((why, details)) => {
                    actions.push(ignore(&self.ticker, why, details));
                    proof {
                        done = done.push(Step::Skip(why, k));
                        assert(done =~= done.drop_last() + seq![Step::Skip(why, k)]);
                    }
                },
                None => {
                    let order = Order::new_sell(
                        self.ticker.clone(),
                        amount,
                        current_price,
                        current_time,
                        Some(b),
                    );
                    actions.push(StrategyAction::PlaceOrder { order });
                    proof {
                        done = done.push(Step::Place(k));
                    }
                    placed = true;
                },
            }
            proof {
                assert forall|j: int| 0 <= j < actions@.len() implies sell_action_ok(
                    #[trigger] actions@[j],
                    done[j],
                    *self,
                    *state,
                    current_price@,
                    fees@,
                    current_time,
                ) by {}
            }
            i = i + 1;
        }
        proof {
            if !placed {
                assert(cands@.subrange(i as int, cands@.len() as int) =~= Seq::<usize>::empty());
                assert(done + Seq::<Step>::empty() =~= done);
            }
        }
        actions
    }
}


pub open spec fn buy_action_ok(
    a: StrategyAction,
    st: Step,
    s: ScalpingStrategy,
    state: State,
    amount: int,
    price: int,
    time: u64,
) -> bool {
    let t = s.ticker;
    let orders = state.orders@;
    match st {
        Step::Skip(k, i) => is_ignore(a, t, k, s.skip_details(state, k, orders[i as int], price, 0)),
        Step::Place(i) => match a {
            StrategyAction::PlaceOrder { order } => {
                &&& order.ticker == t
                &&& order.side == OrderSide::Buy
                &&& order.order_type == OrderType::Market
                &&& order.status == OrderStatus::Draft
                &&& order.amount@ == amount
                &&& order.quote_amount@ == adjusted_quote(amount, price)
                &&& order.price@ == price
                &&& order.creation_time == time
                &&& (i < orders.len() ==> order.prev_order_id == Some(orders[i as int].id)
                    && order.session_id == orders[i as int].session_id)
                &&& (i >= orders.len() ==> order.prev_order_id is None && order.session_id is Some)
            },
            _ => false,
        },
    }
}

impl ScalpingStrategy {
    /// Open sells of this market, most recent first.
    pub open spec fn reentry_candidates(self, state: State) -> Seq<usize> {
        sort_indices(
            state.orders@,
            matching_indices(state.orders@, |o: Order| open_sell(o, self.ticker)),
            false,
        )
    }

    /// Amount a buy of the configured quote takes at `price`.
    pub open spec fn buy_amount(self, price: int) -> int {
        div_v(self.params.quote_amount@, price)
    }

    /// Reasons that skip a reentry after the sell `s` before prices are looked at.
    pub open spec fn reentry_pre(self, state: State, s: Order, time: u64) -> Option<Skip> {
        if self.params.reentry_delay > age(time, s.creation_time) {
            Some(Skip::ReentryDelay)
        } else if !funds_ok(state.portfolio, self.ticker.quote@, self.params.quote_amount@) {
            Some(Skip::ReentryNoFunds)
        } else if s.session_id is Some && session_profit(state.orders@, s.session_id->Some_0@) >= 0
            && age(
            time,
            match session_start(state.orders@, s.session_id->Some_0@) {
                Some(v) => v,
                None => 0,
            },
        ) > self.params.session_profit_lifetime {
            Some(Skip::TerminatingSession)
        } else {
            None
        }
    }

    /// Resistances above `price` that hold a reentry back.
    pub open spec fn reentry_resistance(self, price: int) -> Seq<Skip> {
        let a: Seq<Skip> = match opt_val(self.price_stats.short_resistance) {
            Some(v) => if v > price {
                seq![Skip::ReentryShortResistance]
            } else {
                Seq::empty()
            },
            None => Seq::empty(),
        };
        let b: Seq<Skip> = match opt_val(self.price_stats.long_resistance) {
            Some(v) => if v > price {
                seq![Skip::ReentryLongResistance]
            } else {
                Seq::empty()
            },
            None => Seq::empty(),
        };
        a + b
    }

    /// The reentry stage over the candidates `c`, until one buy is placed.
    pub open spec fn reentry_plan(
        self,
        state: State,
        c: Seq<usize>,
        price: int,
        time: u64,
        rules: LotRules,
    ) -> Seq<Step>
        decreases c.len(),
    {
        if c.len() == 0 {
            Seq::empty()
        } else {
            let rest = self.reentry_plan(state, c.drop_first(), price, time, rules);
            match self.reentry_pre(state, state.orders@[c[0] as int], time) {
                Some(k) => seq![Step::Skip(k, c[0])] + rest,
                None => {
                    let res = self.reentry_resistance(price);
                    if res.len() > 0 {
                        skips(res, c[0]) + rest
                    } else if adjusted_amount(self.buy_amount(price), price, rules) is Some {
                        seq![Step::Place(c[0])]
                    } else {
                        rest
                    }
                },
            }
        }
    }

    pub open spec fn reentry_result(
        self,
        state: State,
        price: int,
        time: u64,
        rules: LotRules,
        r: Seq<StrategyAction>,
    ) -> bool {
        let plan = if price <= 0 {
            Seq::empty()
        } else {
            self.reentry_plan(state, self.reentry_candidates(state), price, time, rules)
        };
        let amount = match adjusted_amount(self.buy_amount(price), price, rules) {
            Some(a) => a,
            None => 0,
        };
        &&& r.len() == plan.len()
        &&& forall|j: int|
            0 <= j < r.len() ==> buy_action_ok(
                #[trigger] r[j],
                plan[j],
                self,
                state,
                amount,
                price,
                time,
            )
    }

    /// Reentry stage: for each open sell, most recent first, skip it within the reentry
    /// delay, for want of quote funds, when its session has made its profit and outlived
    /// its lifetime, or under a resistance; otherwise buy the configured quote amount at
    /// `current_price`, fitted to the lot rules, and stop.
    pub fn process_reentry(
        &self,
        state: &State,
        rules: &LotRules,
        current_price: Dec,
        current_time: u64,
    ) -> (r: Vec<StrategyAction>)
        ensures
            self.reentry_result(*state, current_price@, current_time, *rules, r@),
    {
        let mut actions: Vec<StrategyAction> = Vec::new();
        if current_price.le(&Dec::zero()) {
            return actions;
        }
        let mut status: Vec<OrderStatus> = Vec::new();
        status.push(OrderStatus::Executed);
        status.push(OrderStatus::Active);
        status.push(OrderStatus::Sent);
        status.push(OrderStatus::Draft);
        let filters = OrderListFilters {
            ticker: Some(self.ticker.clone()),
            side: Some(OrderSide::Sell),
            status,
            session: None,
            strategy: None,
            has_child: Some(false),
        };
        proof {
            let st = seq![
                OrderStatus::Executed,
                OrderStatus::Active,
                OrderStatus::Sent,
                OrderStatus::Draft,
            ];
            assert(filters.status@ =~= st);
            assert forall|o: Order|
                #[trigger] crate::state::filter_pred(filters)(o) == open_sell(o, self.ticker) by {
                if o.status == OrderStatus::Executed {
                    assert(st[0] == o.status);
                }
                if o.status == OrderStatus::Active {
                    assert(st[1] == o.status);
                }
                if o.status == OrderStatus::Sent {
                    assert(st[2] == o.status);
                }
                if o.status == OrderStatus::Draft {
                    assert(st[3] == o.status);
                }
            }
            crate::state::lemma_matching_same(
                state.orders@,
                crate::state::filter_pred(filters),
                |o: Order| open_sell(o, self.ticker),
            );
        }
        let cands = state.find_indices(
            &filters,
            &OrderListSort { by: OrderListSortBy::Date, asc: false },
        );
        let ghost plan = self.reentry_plan(*state, cands@, current_price@, current_time, *rules);
        let ghost amount = match adjusted_amount(
            self.buy_amount(current_price@),
            current_price@,
            *rules,
        ) {
            Some(a) => a,
            None => 0,
        };
        proof {
            assert(cands@.subrange(0, cands@.len() as int) =~= cands@);
            assert(Seq::<Step>::empty() + plan =~= plan);
        }
        let ghost mut done: Seq<Step> = Seq::empty();
        let mut placed = false;
        let mut i: usize = 0;
        while i < cands.len() && !placed
            invariant
                i <= cands@.len(),
                current_price@ > 0,
                forall|q: int| 0 <= q < cands@.len() ==> #[trigger] cands@[q] < state.orders@.len(),
                plan == self.reentry_plan(*state, cands@, current_price@, current_time, *rules),
                amount == match adjusted_amount(
                    self.buy_amount(current_price@),
                    current_price@,
                    *rules,
                ) {
                    Some(a) => a,
                    None => 0,
                },
                placed ==> done == plan,
                !placed ==> done + self.reentry_plan(
                    *state,
                    cands@.subrange(i as int, cands@.len() as int),
                    current_price@,
                    current_time,
                    *rules,
                ) == plan,
                actions@.len() == done.len(),
                forall|j: int|
                    0 <= j < actions@.len() ==> buy_action_ok(
                        #[trigger] actions@[j],
                        done[j],
                        *self,
                        *state,
                        amount,
                        current_price@,
                        current_time,
                    ),
            decreases cands@.len() - i,
        {
            let k = cands[i];
            let s = &state.orders[k];
            let ghost rest = cands@.subrange(i as int, cands@.len() as int);
            proof {
                assert(rest[0] == k);
                assert(rest.drop_first() =~= cands@.subrange(i + 1, cands@.len() as int));
            }
            let pre = self.reentry_pre_exec(state, s, current_time);
            match pre {
                Some(why) => {
                    let details = self.reentry_figures(state, s, why, current_price);
                    actions.push(ignore(&self.ticker, why, details));
                    proof {
                        done = done.push(Step::Skip(why, k));
                        assert(done =~= done.drop_last() + seq![Step::Skip(why, k)]);
                    }
                },
                None => {
                    let res = self.reentry_resistance_exec(current_price);
                    if res.len() > 0 {
                        let ghost d0 = done;
                        let mut q: usize = 0;
                        while q < res.len()
                            invariant
                                q <= res@.len(),
                                forall|x: int|
                                    0 <= x < res@.len() ==> #[trigger] res@[x]
                                        == Skip::ReentryShortResistance || res@[x]
                                        == Skip::ReentryLongResistance,
                                actions@.len() == d0.len() + q,
                                done == d0 + skips(res@.subrange(0, q as int), k),
                                forall|j: int|
                                    0 <= j < actions@.len() ==> buy_action_ok(
                                        #[trigger] actions@[j],
                                        done[j],
                                        *self,
                                        *state,
                                        amount,
                                        current_price@,
                                        current_time,
                                    ),
                            decreases res@.len() - q,
                        {
                            actions.push(ignore(&self.ticker, res[q], no_figures()));
                            proof {
                                done = done.push(Step::Skip(res@[q as int], k));
                                assert(skips(res@.subrange(0, q + 1), k) =~= skips(
                                    res@.subrange(0, q as int),
                                    k,
                                ).push(Step::Skip(res@[q as int], k)));
                            }
                            q = q + 1;
                        }
                        proof {
                            assert(res@.subrange(0, q as int) =~= res@);
                        }
                    } else {
                        let buy_qty = self.params.quote_amount.div(current_price);
                        let mut order = Order::new_buy(
                            self.ticker.clone(),
                            buy_qty,
                            current_price,
                            buy_qty.mul(current_price),
                            current_time,
                            Some(s),
                        );
                        if adjust_order_price_and_amount(&mut order, rules).is_ok() {
                            actions.push(StrategyAction::PlaceOrder { order });
                            proof {
                                done = done.push(Step::Place(k));
                            }
                            placed = true;
                        }
                    }
                },
            }
            proof {
                assert forall|j: int| 0 <= j < actions@.len() implies buy_action_ok(
                    #[trigger] actions@[j],
                    done[j],
                    *self,
                    *state,
                    amount,
                    current_price@,
                    current_time,
                ) by {}
                if !placed {
                    assert(done + self.reentry_plan(
                        *state,
                        cands@.subrange(i + 1, cands@.len() as int),
                        current_price@,
                        current_time,
                        *rules,
                    ) =~= plan);
                }
            }
            i = i + 1;
        }
        proof {
            if !placed {
                assert(cands@.subrange(i as int, cands@.len() as int) =~= Seq::<usize>::empty());
                assert(done + Seq::<Step>::empty() =~= done);
            }
        }
        actions
    }

    /// The figures a reentry skip before prices reports.
    fn reentry_figures(&self, state: &State, s: &Order, why: Skip, price: Dec) -> (r: Vec<Dec>)
        requires
            why == Skip::ReentryDelay || why == Skip::ReentryNoFunds || why
                == Skip::TerminatingSession,
            why == Skip::TerminatingSession ==> s.session_id is Some,
        ensures
            vals(r@) == self.skip_details(*state, why, *s, price@, 0),
    {
        match why {
            Skip::ReentryNoFunds => {
                let free = state.portfolio.free_amount(self.ticker.quote.as_str());
                figures(free, price)
            },
            Skip::TerminatingSession => match &s.session_id {
                Some(sid) => figure(state.get_session_profit(sid)),
                None => no_figures(),
            },
            _ => no_figures(),
        }
    }

    fn reentry_pre_exec(&self, state: &State, s: &Order, current_time: u64) -> (r: Option<Skip>)
        ensures
            r == self.reentry_pre(*state, *s, current_time),
    {
        let elapsed = if current_time >= s.creation_time {
            current_time - s.creation_time
        } else {
            0
        };
        if self.params.reentry_delay > elapsed {
            return Some(Skip::ReentryDelay);
        }
        if !state.portfolio.check_funds(self.ticker.quote.as_str(), self.params.quote_amount) {
            return Some(Skip::ReentryNoFunds);
        }
        if let Some(sid) = &s.session_id {
            let profit = state.get_session_profit(sid);
            let start = match state.get_session_start(sid) {
                Some(v) => v,
                None => 0,
            };
            let lived = if current_time >= start {
                current_time - start
            } else {
                0
            };
            if profit.ge(&Dec::zero()) && lived > self.params.session_profit_lifetime {
                return Some(Skip::TerminatingSession);
            }
        }
        None
    }

    fn reentry_resistance_exec(&self, price: Dec) -> (r: Vec<Skip>)
        ensures
            r@ == self.reentry_resistance(price@),
            forall|x: int|
                0 <= x < r@.len() ==> #[trigger] r@[x] == Skip::ReentryShortResistance || r@[x]
                    == Skip::ReentryLongResistance,
    {
        let mut r: Vec<Skip> = Vec::new();
        if let Some(v) = self.price_stats.short_resistance {
            if v.gt(&price) {
                r.push(Skip::ReentryShortResistance);
            }
        }
        if let Some(v) = self.price_stats.long_resistance {
            if v.gt(&price) {
                r.push(Skip::ReentryLongResistance);
            }
        }
        proof {
            let a: Seq<Skip> = match opt_val(self.price_stats.short_resistance) {
                Some(v) => if v > price@ {
                    seq![Skip::ReentryShortResistance]
                } else {
                    Seq::empty()
                },
                None => Seq::empty(),
            };
            let b: Seq<Skip> = match opt_val(self.price_stats.long_resistance) {
                Some(v) => if v > price@ {
                    seq![Skip::ReentryLongResistance]
                } else {
                    Seq::empty()
                },
                None => Seq::empty(),
            };
            assert(r@ =~= a + b);
        }
        r
    }
}


impl ScalpingStrategy {
    /// Working time of the most recently worked order of this market.
    pub open spec fn last_order_time(self, state: State) -> Option<u64> {
        let l = sort_indices(
            state.orders@,
            matching_indices(state.orders@, |o: Order| o.ticker.same(self.ticker)),
            false,
        );
        if l.len() > 0 {
            state.orders@[l[0] as int].working_time
        } else {
            None
        }
    }

    /// Conditions that hold an entry back once funds and sessions allow it.
    pub open spec fn entry_checks(self, price: int) -> Seq<Skip> {
        let down = (self.price_stats.long_trend == Some(PriceTrend::Crash)
            || self.price_stats.long_trend == Some(PriceTrend::Down))
            && self.price_stats.short_trend != Some(PriceTrend::Bull);
        let a: Seq<Skip> = if down {
            seq![Skip::EntryPriceDown]
        } else {
            Seq::empty()
        };
        let b: Seq<Skip> = match opt_val(self.price_stats.long_support) {
            Some(v) => if v > price {
                seq![Skip::EntryBelowSupport]
            } else {
                Seq::empty()
            },
            None => Seq::empty(),
        };
        a + b
    }

    /// The entry stage; a placed entry buy is `Place` of an index past the orders.
    pub open spec fn entry_plan(self, state: State, price: int, time: u64, rules: LotRules) -> Seq<
        Step,
    > {
        if price <= 0 {
            Seq::empty()
        } else if exists|i: int|
            0 <= i < state.orders@.len() && pending_buy(#[trigger] state.orders@[i], self.ticker) {
            Seq::empty()
        } else if self.last_order_time(state) is Some && self.params.entry_delay > age(
            time,
            self.last_order_time(state)->Some_0,
        ) {
            Seq::empty()
        } else if !funds_ok(state.portfolio, self.ticker.quote@, self.params.quote_amount@) {
            seq![Step::Skip(Skip::EntryNoFunds, usize::MAX)]
        } else if active_session_ids(state.orders@, self.ticker, time, SESSION_WINDOW_MS).len()
            >= self.params.session_count {
            seq![Step::Skip(Skip::EntryMaxSessions, usize::MAX)]
        } else if self.entry_checks(price).len() > 0 {
            skips(self.entry_checks(price), usize::MAX)
        } else if adjusted_amount(self.buy_amount(price), price, rules) is Some {
            seq![Step::Place(usize::MAX)]
        } else {
            Seq::empty()
        }
    }

    pub open spec fn entry_result(
        self,
        state: State,
        price: int,
        time: u64,
        rules: LotRules,
        r: Seq<StrategyAction>,
    ) -> bool {
        let plan = self.entry_plan(state, price, time, rules);
        let amount = match adjusted_amount(self.buy_amount(price), price, rules) {
            Some(a) => a,
            None => 0,
        };
        &&& r.len() == plan.len()
        &&& forall|j: int|
            0 <= j < r.len() ==> buy_action_ok(
                #[trigger] r[j],
                plan[j],
                self,
                state,
                amount,
                price,
                time,
            )
    }

    /// Entry stage: with no buy pending and the last order older than the entry delay,
    /// skip for want of quote funds, at the session cap, on a falling long trend without
    /// a short bull run, or under the long support; otherwise open a new session with a
    /// buy of the configured quote amount at `current_price`, fitted to the lot rules.
    pub fn process_entry(
        &self,
        state: &State,
        rules: &LotRules,
        current_price: Dec,
        current_time: u64,
    ) -> (r: Vec<StrategyAction>)
        ensures
            self.entry_result(*state, current_price@, current_time, *rules, r@),
    {
        let mut actions: Vec<StrategyAction> = Vec::new();
        if current_price.le(&Dec::zero()) {
            return actions;
        }
        let mut i: usize = 0;
        while i < state.orders.len()
            invariant
                i <= state.orders@.len(),
                current_price@ > 0,
                actions@.len() == 0,
                forall|j: int|
                    0 <= j < i ==> !pending_buy(#[trigger] state.orders@[j], self.ticker),
            decreases state.orders@.len() - i,
        {
            let o = &state.orders[i];
            if o.ticker == self.ticker && o.side == OrderSide::Buy && (o.status == OrderStatus::Sent
                || o.status == OrderStatus::Draft) {
                proof {
                    assert(pending_buy(state.orders@[i as int], self.ticker));
                }
                return actions;
            }
            i = i + 1;
        }
        let filters = OrderListFilters {
            ticker: Some(self.ticker.clone()),
            side: None,
            status: Vec::new(),
            session: None,
            strategy: None,
            has_child: None,
        };
        proof {
            assert forall|o: Order|
                #[trigger] crate::state::filter_pred(filters)(o) == o.ticker.same(self.ticker) by {}
            crate::state::lemma_matching_same(
                state.orders@,
                crate::state::filter_pred(filters),
                |o: Order| o.ticker.same(self.ticker),
            );
        }
        if let Some(last) = state.get_last_executed_order_time(filters) {
            let elapsed = if current_time >= last {
                current_time - last
            } else {
                0
            };
            if self.params.entry_delay > elapsed {
                return actions;
            }
        }
        if !state.portfolio.check_funds(self.ticker.quote.as_str(), self.params.quote_amount) {
            let free = state.portfolio.free_amount(self.ticker.quote.as_str());
            actions.push(
                ignore(&self.ticker, Skip::EntryNoFunds, figures(free, self.params.quote_amount)),
            );
            return actions;
        }
        if state.get_active_sessions(&self.ticker, current_time, SESSION_WINDOW_MS)
            >= self.params.session_count as usize {
            actions.push(ignore(&self.ticker, Skip::EntryMaxSessions, no_figures()));
            return actions;
        }
        let checks = self.entry_checks_exec(current_price);
        if checks.len() > 0 {
            let mut q: usize = 0;
            while q < checks.len()
                invariant
                    q <= checks@.len(),
                    actions@.len() == q,
                    forall|j: int|
                        0 <= j < q ==> is_ignore(
                            #[trigger] actions@[j],
                            self.ticker,
                            checks@[j],
                            Seq::<int>::empty(),
                        ),
                decreases checks@.len() - q,
            {
                actions.push(ignore(&self.ticker, checks[q], no_figures()));
                q = q + 1;
            }
            proof {
                assert forall|j: int| 0 <= j < checks@.len() implies #[trigger] skips(
                    checks@,
                    usize::MAX,
                )[j] == Step::Skip(checks@[j], usize::MAX) by {}
            }
            return actions;
        }
        let buy_qty = self.params.quote_amount.div(current_price);
        let mut order = Order::new_buy(
            self.ticker.clone(),
            buy_qty,
            current_price,
            buy_qty.mul(current_price),
            current_time,
            None,
        );
        if adjust_order_price_and_amount(&mut order, rules).is_ok() {
            actions.push(StrategyAction::PlaceOrder { order });
        }
        actions
    }

    fn entry_checks_exec(&self, price: Dec) -> (r: Vec<Skip>)
        ensures
            r@ == self.entry_checks(price@),
    {
        let mut r: Vec<Skip> = Vec::new();
        let down = (self.price_stats.long_trend == Some(PriceTrend::Crash)
            || self.price_stats.long_trend == Some(PriceTrend::Down))
            && self.price_stats.short_trend != Some(PriceTrend::Bull);
        if down {
            r.push(Skip::EntryPriceDown);
        }
        if let Some(v) = self.price_stats.long_support {
            if v.gt(&price) {
                r.push(Skip::EntryBelowSupport);
            }
        }
        proof {
            let a: Seq<Skip> = if down {
                seq![Skip::EntryPriceDown]
            } else {
                Seq::empty()
            };
            let b: Seq<Skip> = match opt_val(self.price_stats.long_support) {
                Some(v) => if v > price@ {
                    seq![Skip::EntryBelowSupport]
                } else {
                    Seq::empty()
                },
                None => Seq::empty(),
            };
            assert(r@ =~= a + b);
        }
        r
    }
}


fn max_below_exec(v: &Vec<Dec>, p: Dec) -> (r: Option<Dec>)
    ensures
        opt_val(r) == max_below(vals(v@), p@),
{
    let mut best: Option<Dec> = None;
    let mut i: usize = 0;
    while i < v.len()
        invariant
            i <= v@.len(),
            opt_val(best) == max_below(vals(v@).subrange(0, i as int), p@),
        decreases v@.len() - i,
    {
        proof {
            let q = vals(v@).subrange(0, i + 1);
            assert(q.drop_last() =~= vals(v@).subrange(0, i as int));
        }
        let x = v[i];
        if x.lt(&p) {
            best = match best {
                Some(m) => Some(if m.ge(&x) { m } else { x }),
                None => Some(x),
            };
        }
        i = i + 1;
    }
    proof {
        assert(vals(v@).subrange(0, i as int) =~= vals(v@));
    }
    best
}

fn min_above_exec(v: &Vec<Dec>, p: Dec) -> (r: Option<Dec>)
    ensures
        opt_val(r) == min_above(vals(v@), p@),
{
    let mut best: Option<Dec> = None;
    let mut i: usize = 0;
    while i < v.len()
        invariant
            i <= v@.len(),
            opt_val(best) == min_above(vals(v@).subrange(0, i as int), p@),
        decreases v@.len() - i,
    {
        proof {
            let q = vals(v@).subrange(0, i + 1);
            assert(q.drop_last() =~= vals(v@).subrange(0, i as int));
        }
        let x = v[i];
        if x.gt(&p) {
            best = match best {
                Some(m) => Some(if m.le(&x) { m } else { x }),
                None => Some(x),
            };
        }
        i = i + 1;
    }
    proof {
        assert(vals(v@).subrange(0, i as int) =~= vals(v@));
    }
    best
}

fn close_prices(h: &Vec<MarketplaceCandle>) -> (r: Vec<Dec>)
    ensures
        vals(r@) == closes(h@),
{
    let mut r: Vec<Dec> = Vec::new();
    let mut i: usize = 0;
    while i < h.len()
        invariant
            i <= h@.len(),
            r@.len() == i,
            forall|j: int| 0 <= j < i ==> #[trigger] r@[j] == h@[j].close_price,
        decreases h@.len() - i,
    {
        r.push(h[i].close_price);
        i = i + 1;
    }
    proof {
        assert(vals(r@) =~= closes(h@));
    }
    r
}

fn low_prices(h: &Vec<MarketplaceCandle>, n: usize) -> (r: Vec<Dec>)
    ensures
        vals(r@) == first_n(lows(h@), n as int),
{
    let m = if n < h.len() {
        n
    } else {
        h.len()
    };
    let mut r: Vec<Dec> = Vec::new();
    let mut i: usize = 0;
    while i < m
        invariant
            i <= m <= h@.len(),
            r@.len() == i,
            forall|j: int| 0 <= j < i ==> #[trigger] r@[j] == h@[j].low_price,
        decreases m - i,
    {
        r.push(h[i].low_price);
        i = i + 1;
    }
    proof {
        assert(vals(r@) =~= first_n(lows(h@), n as int));
    }
    r
}

fn candle_ranges(h: &Vec<MarketplaceCandle>) -> (r: Vec<(Dec, Dec, Dec)>)
    ensures
        r@ == ranges(h@),
{
    let mut r: Vec<(Dec, Dec, Dec)> = Vec::new();
    if h.len() == 0 {
        proof {
            assert(r@ =~= ranges(h@));
        }
        return r;
    }
    let mut i: usize = 0;
    while i < h.len() - 1
        invariant
            h@.len() > 0,
            i + 1 <= h@.len(),
            r@ == ranges(h@).subrange(0, i as int),
        decreases h@.len() - i,
    {
        r.push((h[i].high_price, h[i].low_price, h[i + 1].close_price));
        i = i + 1;
        proof {
            assert(r@ =~= ranges(h@).subrange(0, i as int));
        }
    }
    proof {
        assert(ranges(h@).subrange(0, i as int) =~= ranges(h@));
    }
    r
}

impl ScalpingStrategy {
    pub fn get_sma(&self, history: &Vec<MarketplaceCandle>, n: usize) -> (r: Option<Dec>)
        ensures
            opt_val(r) == sma_spec(closes(history@), n as int),
    {
        let p = close_prices(history);
        sma(p.as_slice(), n)
    }

    pub fn get_wsma(&self, history: &Vec<MarketplaceCandle>, n: usize) -> (r: Option<Dec>)
        ensures
            opt_val(r) == wsma_spec(closes(history@), n as int),
    {
        let p = close_prices(history);
        wsma(p.as_slice(), n)
    }

    pub fn get_atr(&self, history: &Vec<MarketplaceCandle>, n: usize) -> (r: Option<Dec>)
        ensures
            opt_val(r) == atr_spec(ranges(history@), n as int),
    {
        let p = candle_ranges(history);
        atr(p.as_slice(), n)
    }

    /// Nearest support below `price` among the lows of the `n` most recent candles.
    pub fn get_support(&self, history: &Vec<MarketplaceCandle>, n: usize, tolerance: Dec, price: Dec) -> (r:
        Option<Dec>)
        ensures
            opt_val(r) == support_spec(history@, n as int, tolerance@, price@),
    {
        let prices = low_prices(history, n);
        let levels = find_price_clusters(prices.as_slice(), tolerance, PriceClusterSide::Support);
        max_below_exec(&levels, price)
    }

    /// Nearest resistance above `price` among the lows of the `n` most recent candles.
    pub fn get_resistance(&self, history: &Vec<MarketplaceCandle>, n: usize, tolerance: Dec, price: Dec) -> (r:
        Option<Dec>)
        ensures
            opt_val(r) == resistance_spec(history@, n as int, tolerance@, price@),
    {
        let prices = low_prices(history, n);
        let levels = find_price_clusters(
            prices.as_slice(),
            tolerance,
            PriceClusterSide::Resistance,
        );
        min_above_exec(&levels, price)
    }

    /// Statistics of the candle history at `buy_price`; `None` until the history is
    /// long enough for the 120-candle averages. Levels are measured from the buy price
    /// alone; `sell_price` takes no part.
    pub fn update_stats(&self, buy_price: Dec, sell_price: Dec) -> (r: Option<PriceStats>)
        ensures
            r is Some <==> stats_available(self.candle_event_history@),
            r is Some ==> stats_match(r->Some_0, self.candle_event_history@, buy_price@),
    {
        let history = &self.candle_event_history;
        let wsma_120 = match self.get_wsma(history, 120) {
            Some(v) => v,
            None => {
                return None;
            },
        };
        let wsma_14 = match self.get_wsma(history, 14) {
            Some(v) => v,
            None => {
                return None;
            },
        };
        let wsma_5 = match self.get_wsma(history, 5) {
            Some(v) => v,
            None => {
                return None;
            },
        };
        if self.get_sma(history, 120).is_none() {
            return None;
        }
        let atr_120 = match self.get_atr(history, 120) {
            Some(v) => v,
            None => {
                return None;
            },
        };
        let atr_14 = match self.get_atr(history, 14) {
            Some(v) => v,
            None => {
                // ranges enough for 120 candles are enough for 14
                proof {
                    assert(false);
                }
                return None;
            },
        };
        let half = Dec::from_units(5_000_000_000);
        let tol_120 = atr_120.mul(half);
        let tol_14 = atr_14.mul(half);
        Some(
            PriceStats {
                short_trend: classify_trend(wsma_5, wsma_14),
                long_trend: classify_trend(wsma_14, wsma_120),
                short_support: self.get_support(history, 14, tol_14, buy_price),
                long_support: self.get_support(history, 120, tol_120, buy_price),
                short_resistance: self.get_resistance(history, 14, tol_14, buy_price),
                long_resistance: self.get_resistance(history, 120, tol_120, buy_price),
            },
        )
    }

    /// Loads the candle history (given oldest first) once.
    pub fn init(&mut self, candles: Vec<MarketplaceCandle>)
        ensures
            old(self).initialized ==> *final(self) == *old(self),
            !old(self).initialized ==> {
                &&& final(self).initialized
                &&& final(self).candle_event_history@ == candles@.reverse()
                &&& final(self).ticker == old(self).ticker
                &&& final(self).params == old(self).params
                &&& final(self).trade_event_history == old(self).trade_event_history
            },
    {
        if self.initialized {
            return;
        }
        let mut rev: Vec<MarketplaceCandle> = Vec::new();
        let mut rest = candles;
        let ghost all = rest@;
        while rest.len() > 0
            invariant
                rest@ == all.subrange(0, rest@.len() as int),
                rev@ == all.subrange(rest@.len() as int, all.len() as int).reverse(),
                rest@.len() <= all.len(),
            decreases rest@.len(),
        {
            let c = rest.pop().unwrap();
            rev.push(c);
            proof {
                assert(rev@ =~= all.subrange(rest@.len() as int, all.len() as int).reverse());
                assert(rest@ =~= all.subrange(0, rest@.len() as int));
            }
        }
        proof {
            assert(all.subrange(0, all.len() as int) =~= all);
        }
        self.candle_event_history = rev;
        self.initialized = true;
    }

    /// Keeps a public trade, most recent first, at most the last 500.
    pub fn add_trade_event_history(&mut self, event: MarketplaceTrade)
        ensures
            old(self).trade_event_history@.len() < TRADE_HISTORY ==> final(self).trade_event_history@
                == seq![event] + old(self).trade_event_history@,
            old(self).trade_event_history@.len() >= TRADE_HISTORY
                ==> final(self).trade_event_history@ == (seq![event]
                + old(self).trade_event_history@).drop_last(),
            final(self).candle_event_history == old(self).candle_event_history,
            final(self).price_stats == old(self).price_stats,
            final(self).ticker == old(self).ticker,
            final(self).params == old(self).params,
    {
        self.trade_event_history.insert(0, event);
        proof {
            assert(self.trade_event_history@ =~= seq![event] + old(self).trade_event_history@);
        }
        if self.trade_event_history.len() > TRADE_HISTORY {
            self.trade_event_history.pop();
        }
    }

    /// Puts a candle at the front of the history, replacing the front one when it is the
    /// same interval, and drops the oldest once the history reaches 120. When a new
    /// interval starts, the statistics are refreshed at its close price. Returns whether
    /// they were.
    pub fn add_candle_event_history(&mut self, event: MarketplaceCandle) -> (r: bool)
        ensures
            r == (old(self).candle_event_history@.len() > 0
                && old(self).candle_event_history@[0].start_time != event.start_time),
            ({
                let h = old(self).candle_event_history@;
                let base = if h.len() > 0 && !r {
                    h.drop_first()
                } else {
                    h
                };
                let pushed = seq![event] + base;
                final(self).candle_event_history@ == if pushed.len() >= CANDLE_HISTORY {
                    pushed.drop_last()
                } else {
                    pushed
                }
            }),
            final(self).ticker == old(self).ticker,
            final(self).params == old(self).params,
            r && stats_available(final(self).candle_event_history@) ==> stats_match(
                final(self).price_stats,
                final(self).candle_event_history@,
                event.close_price@,
            ),
            !(r && stats_available(final(self).candle_event_history@)) ==> final(self).price_stats
                == old(self).price_stats,
    {
        let mut refresh = false;
        let close = event.close_price;
        let ghost h = self.candle_event_history@;
        if self.candle_event_history.len() > 0 {
            if self.candle_event_history[0].start_time != event.start_time {
                refresh = true;
            } else {
                self.candle_event_history.remove(0);
                proof {
                    assert(self.candle_event_history@ =~= h.drop_first());
                }
            }
        }
        let ghost base = self.candle_event_history@;
        self.candle_event_history.insert(0, event);
        proof {
            assert(self.candle_event_history@ =~= seq![event] + base);
        }
        if self.candle_event_history.len() >= CANDLE_HISTORY {
            self.candle_event_history.pop();
        }
        if refresh {
            if let Some(stats) = self.update_stats(close, close) {
                self.price_stats = stats;
            }
        }
        refresh
    }
}


impl ScalpingStrategy {
    pub open spec fn sell_result(self, state: State, fees: int, price: int, time: u64, r: Seq<
        StrategyAction,
    >) -> bool {
        let plan = self.sell_plan(state, self.sell_candidates(state), price, fees);
        &&& r.len() == plan.len()
        &&& forall|j: int|
            0 <= j < r.len() ==> sell_action_ok(
                #[trigger] r[j],
                plan[j],
                self,
                state,
                price,
                fees,
                time,
            )
    }

    /// A decision tick on a book update of this market: nothing while an order of the
    /// market is in flight; otherwise the sell, reentry and entry stages in turn, all at
    /// the best bid. Fails when the book lacks a side.
    pub fn on_depth_event(
        &self,
        state: &State,
        event: &MarketplaceBook,
        fees: Dec,
        rules: &LotRules,
    ) -> (r: Result<Vec<StrategyAction>, String>)
        ensures
            !event.ticker.same(self.ticker) ==> r is Ok && r->Ok_0@.len() == 0,
            event.ticker.same(self.ticker) ==> (r is Err <==> (event.bids@.len() == 0
                || event.asks@.len() == 0)),
            event.ticker.same(self.ticker) && r is Ok && (exists|i: int|
                0 <= i < state.orders@.len() && in_flight(
                    #[trigger] state.orders@[i],
                    self.ticker,
                )) ==> r->Ok_0@.len() == 0,
            event.ticker.same(self.ticker) && r is Ok && !(exists|i: int|
                0 <= i < state.orders@.len() && in_flight(
                    #[trigger] state.orders@[i],
                    self.ticker,
                )) ==> {
                let p = event.bids@[0].0@;
                let t = event.time;
                exists|a: Seq<StrategyAction>, b: Seq<StrategyAction>, c: Seq<StrategyAction>|
                    r->Ok_0@ == a + b + c && self.sell_result(*state, fees@, p, t, a)
                        && self.reentry_result(*state, p, t, *rules, b) && self.entry_result(
                        *state,
                        p,
                        t,
                        *rules,
                        c,
                    )
            },
    {
        let same = self.ticker == event.ticker;
        if !same {
            return Ok(Vec::new());
        }
        let price = match event.buy_price() {
            Some(p) => p,
            None => {
                return Err(String::from_str("Current buy price missing"));
            },
        };
        if event.sell_price().is_none() {
            return Err(String::from_str("Current sell price missing"));
        }
        let mut i: usize = 0;
        while i < state.orders.len()
            invariant
                i <= state.orders@.len(),
                event.bids@.len() > 0,
                event.asks@.len() > 0,
                event.ticker.same(self.ticker),
                forall|j: int| 0 <= j < i ==> !in_flight(#[trigger] state.orders@[j], self.ticker),
            decreases state.orders@.len() - i,
        {
            let o = &state.orders[i];
            if o.ticker == self.ticker && (o.status == OrderStatus::Draft || o.status
                == OrderStatus::Sent || o.status == OrderStatus::Active) {
                proof {
                    assert(in_flight(state.orders@[i as int], self.ticker));
                }
                return Ok(Vec::new());
            }
            i = i + 1;
        }
        let mut a = self.process_sell(state, fees, price, event.time);
        let mut b = self.process_reentry(state, rules, price, event.time);
        let mut c = self.process_entry(state, rules, price, event.time);
        let ghost (a0, b0, c0) = (a@, b@, c@);
        a.append(&mut b);
        a.append(&mut c);
        proof {
            assert(a@ =~= a0 + b0 + c0);
        }
        Ok(a)
    }
}

} // verus!
