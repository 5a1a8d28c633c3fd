use crate::dec::{clamp, Dec, SCALE};
use crate::market::{MarketplaceBook, MarketplaceEvent, MarketplaceOrderUpdate};
use crate::order::{trades_total, Order, OrderSide, OrderStatus, OrderTrade, OrderType};
use crate::portfolio::{balances, credit_free, credit_locked, Asset, Portfolio};
use crate::strategy::{div_v, mul_v};
use crate::order::fresh_id;
use crate::ticker::Ticker;
use vstd::prelude::*;
use vstd::string::StringExecFns;

verus! {

broadcast use crate::dec::lemma_dec_bounded;

/// What drives the simulated exchange.
#[derive(Debug, Clone, Copy, PartialEq, Eq, Structural)]
pub enum SimulationSource {
    Candles,
    Book,
    Trades,
}

/// What one book level does to an order: ends the walk, is passed over, or fills it.
#[derive(Debug, Clone, Copy, PartialEq, Eq, Structural)]
pub enum FillKind {
    Stop,
    Pass,
    Take,
}

/// A simulated exchange: balances, the orders it holds, and the latest book of each
/// market, against which active orders are filled.
#[derive(Debug)]
pub struct SimulationMarketplace {
    pub source: SimulationSource,
    pub assets: Portfolio,
    pub orders: Vec<Order>,
    pub order_book: Vec<MarketplaceBook>,
    pub current_time: u64,
    pub fees: Dec,
}

/// The text of a decimal digit.
pub open spec fn digit_text(d: nat) -> Seq<char> {
    if d == 0 {
        "0"@
    } else if d == 1 {
        "1"@
    } else if d == 2 {
        "2"@
    } else if d == 3 {
        "3"@
    } else if d == 4 {
        "4"@
    } else if d == 5 {
        "5"@
    } else if d == 6 {
        "6"@
    } else if d == 7 {
        "7"@
    } else if d == 8 {
        "8"@
    } else {
        "9"@
    }
}

/// The decimal text of a natural number, without leading zeros.
pub open spec fn decimal(n: nat) -> Seq<char>
    decreases n,
{
    if n < 10 {
        digit_text(n)
    } else {
        decimal(n / 10) + digit_text(n % 10)
    }
}

/// Id of the `n`-th fill of an order: the order id, a dash, and `n` in decimal.
pub open spec fn trade_id_of(order_id: Seq<char>, n: nat) -> Seq<char> {
    order_id + "-"@ + decimal(n)
}

fn digit_str(d: usize) -> (r: &'static str)
    requires
        d < 10,
    ensures
        r@ == digit_text(d as nat),
{
    if d == 0 {
        "0"
    } else if d == 1 {
        "1"
    } else if d == 2 {
        "2"
    } else if d == 3 {
        "3"
    } else if d == 4 {
        "4"
    } else if d == 5 {
        "5"
    } else if d == 6 {
        "6"
    } else if d == 7 {
        "7"
    } else if d == 8 {
        "8"
    } else {
        "9"
    }
}

/// The decimal text of `n`.
pub fn decimal_string(n: usize) -> (r: String)
    ensures
        r@ == decimal(n as nat),
    decreases n,
{
    if n < 10 {
        String::from_str(digit_str(n))
    } else {
        let mut s = decimal_string(n / 10);
        s.append(digit_str(n % 10));
        s
    }
}

fn trade_id(order_id: &String, n: usize) -> (r: String)
    ensures
        r@ == trade_id_of(order_id@, n as nat),
{
    let mut s = order_id.clone();
    s.append("-");
    let digits = decimal_string(n);
    s.append(digits.as_str());
    s
}

/// The fill that a level at price `p` holding `q` gives an order, from what it has
/// filled (`filled`) and the quote its fills came to (`total`). Market buys aim at the
/// notional `amount * price`; market sells and limit orders at `amount`. Limit orders
/// stop at a level beyond their price.
pub open spec fn decide(
    side: OrderSide,
    ty: OrderType,
    amount: int,
    price: int,
    filled: int,
    total: int,
    p: int,
    q: int,
) -> (FillKind, int, bool) {
    match ty {
        OrderType::Market => match side {
            OrderSide::Buy => {
                let rem = clamp(mul_v(amount, price) - total);
                if rem <= 0 {
                    (FillKind::Stop, 0, false)
                } else if rem > mul_v(p, q) {
                    (FillKind::Take, q, false)
                } else {
                    (FillKind::Take, div_v(rem, p), true)
                }
            },
            OrderSide::Sell => {
                let rem = clamp(amount - filled);
                if rem <= 0 {
                    (FillKind::Stop, 0, false)
                } else if rem > q {
                    (FillKind::Take, q, false)
                } else {
                    (FillKind::Take, rem, true)
                }
            },
        },
        OrderType::Limit => {
            let beyond = match side {
                OrderSide::Buy => p > price,
                OrderSide::Sell => p < price,
            };
            let rem = clamp(amount - filled);
            if beyond || rem <= 0 {
                (FillKind::Stop, 0, false)
            } else if rem > q {
                (FillKind::Take, q, false)
            } else {
                (FillKind::Take, rem, true)
            }
        },
        _ => (FillKind::Pass, 0, false),
    }
}

/// Fills (amount, price, whether it completes the order) of an order walking `levels`.
pub open spec fn fills_from(
    side: OrderSide,
    ty: OrderType,
    amount: int,
    price: int,
    filled: int,
    total: int,
    levels: Seq<(Dec, Dec)>,
) -> Seq<(int, int, bool)>
    decreases levels.len(),
{
    if levels.len() == 0 {
        Seq::empty()
    } else {
        let p = levels[0].0@;
        let q = levels[0].1@;
        let (k, x, ex) = decide(side, ty, amount, price, filled, total, p, q);
        match k {
            FillKind::Stop => Seq::empty(),
            FillKind::Pass => fills_from(side, ty, amount, price, filled, total, levels.drop_first()),
            FillKind::Take => seq![(x, p, ex)] + fills_from(
                side,
                ty,
                amount,
                price,
                clamp(filled + x),
                clamp(total + mul_v(x, p)),
                levels.drop_first(),
            ),
        }
    }
}

/// Index of the book of a market, or -1.
pub open spec fn book_index(books: Seq<MarketplaceBook>, t: Ticker) -> int
    decreases books.len(),
{
    if books.len() == 0 {
        -1
    } else {
        let k = book_index(books.drop_last(), t);
        if k >= 0 {
            k
        } else if books.last().ticker.same(t) {
            books.len() - 1
        } else {
            -1
        }
    }
}

/// The side of the book an order walks: bids for a sell, asks for a buy.
pub open spec fn levels_for(b: MarketplaceBook, side: OrderSide) -> Seq<(Dec, Dec)> {
    match side {
        OrderSide::Sell => b.bids@,
        OrderSide::Buy => b.asks@,
    }
}

/// The fills an order gets in a matching pass over `books`.
pub open spec fn order_fills(o: Order, books: Seq<MarketplaceBook>) -> Seq<(int, int, bool)> {
    let b = book_index(books, o.ticker);
    if o.status == OrderStatus::Active && b >= 0 {
        fills_from(
            o.side,
            o.order_type,
            o.amount@,
            o.price@,
            o.filled_amount@,
            trades_total(o.trades@),
            levels_for(books[b], o.side),
        )
    } else {
        Seq::empty()
    }
}

/// Settlement of one fill: a sell credits quote worth the fill net of fee and takes the
/// amount from locked base; a buy credits the amount net of fee in base and takes the
/// notional from locked quote.
pub open spec fn settle_fill(
    m: Map<Seq<char>, (int, int)>,
    t: Ticker,
    side: OrderSide,
    fee: int,
    x: int,
    p: int,
) -> Map<Seq<char>, (int, int)> {
    match side {
        OrderSide::Sell => credit_locked(
            credit_free(m, t.quote@, mul_v(mul_v(p, x), clamp(SCALE - fee))),
            t.base@,
            -x,
        ),
        OrderSide::Buy => credit_locked(
            credit_free(m, t.base@, mul_v(x, clamp(SCALE - fee))),
            t.quote@,
            -mul_v(p, x),
        ),
    }
}

pub open spec fn settle_all(
    m: Map<Seq<char>, (int, int)>,
    t: Ticker,
    side: OrderSide,
    fee: int,
    f: Seq<(int, int, bool)>,
) -> Map<Seq<char>, (int, int)>
    decreases f.len(),
{
    if f.len() == 0 {
        m
    } else {
        settle_fill(settle_all(m, t, side, fee, f.drop_last()), t, side, fee, f.last().0, f.last().1)
    }
}

/// Balances after a matching pass over the first `n` orders.
pub open spec fn tick_balances(
    m: Map<Seq<char>, (int, int)>,
    orders: Seq<Order>,
    books: Seq<MarketplaceBook>,
    fee: int,
    n: int,
) -> Map<Seq<char>, (int, int)>
    decreases n,
{
    if n <= 0 {
        m
    } else {
        let o = orders[n - 1];
        settle_all(tick_balances(m, orders, books, fee, n - 1), o.ticker, o.side, fee, order_fills(o, books))
    }
}

pub open spec fn any_completes(f: Seq<(int, int, bool)>) -> bool {
    exists|j: int| 0 <= j < f.len() && #[trigger] f[j].2
}

/// Amount filled after the fills `f`, starting from `start`.
pub open spec fn sum_qty(start: int, f: Seq<(int, int, bool)>) -> int
    decreases f.len(),
{
    if f.len() == 0 {
        start
    } else {
        clamp(sum_qty(start, f.drop_last()) + f.last().0)
    }
}

/// Quote notional of the fills `f`, added to `start`.
pub open spec fn sum_notional(start: int, f: Seq<(int, int, bool)>) -> int
    decreases f.len(),
{
    if f.len() == 0 {
        start
    } else {
        clamp(sum_notional(start, f.drop_last()) + mul_v(f.last().0, f.last().1))
    }
}

/// Status after the fills `f`: executed once one of them completes the order.
pub open spec fn status_after(s: OrderStatus, f: Seq<(int, int, bool)>) -> OrderStatus {
    if any_completes(f) {
        OrderStatus::Executed
    } else {
        s
    }
}

/// The order `n` is `o` after the fills `f` at `time`.
pub open spec fn filled_order(o: Order, n: Order, f: Seq<(int, int, bool)>, time: u64) -> bool {
    let k = o.trades@.len();
    &&& n.trades@.len() == k + f.len()
    &&& n.trades@.subrange(0, k as int) == o.trades@
    &&& forall|j: int|
        0 <= j < f.len() ==> {
            let t = #[trigger] n.trades@[k + j];
            &&& t.amount@ == f[j].0
            &&& t.price@ == f[j].1
            &&& t.trade_time == time
            &&& t.id@ == trade_id_of(o.id@, (k + j) as nat)
        }
    &&& n.status == status_after(o.status, f)
    &&& n.filled_amount@ == sum_qty(o.filled_amount@, f)
    &&& n.cumulative_quote_amount@ == sum_notional(o.cumulative_quote_amount@, f)
    &&& n.id == o.id && n.ticker == o.ticker && n.side == o.side && n.order_type == o.order_type
    &&& n.amount == o.amount && n.price == o.price && n.quote_amount == o.quote_amount
    &&& n.session_id == o.session_id && n.prev_order_id == o.prev_order_id
    &&& n.next_order_id == o.next_order_id && n.creation_time == o.creation_time
    &&& n.marketplace_id == o.marketplace_id && n.working_time == o.working_time
    &&& n.fees == o.fees && n.profit == o.profit
    &&& n.sell_order_price == o.sell_order_price && n.buy_order_price == o.buy_order_price
    &&& f.len() == 0 ==> n == o
}

/// `e` reports fill `j` of the fills `f` that took order `o` to `n`.
pub open spec fn fill_event_ok(
    e: MarketplaceEvent,
    o: Order,
    n: Order,
    f: Seq<(int, int, bool)>,
    j: int,
    time: u64,
) -> bool {
    match e {
        MarketplaceEvent::OrderUpdate(u) => {
            &&& u.time == time
            &&& u.update_type@ == "TRADE"@
            &&& u.client_id == o.id
            &&& u.working_time == Some(time)
            &&& u.trade == Some(n.trades@[o.trades@.len() + j])
            &&& u.status == status_after(o.status, f.subrange(0, j + 1))
            &&& (o.marketplace_id is Some ==> u.marketplace_id == o.marketplace_id->Some_0)
            &&& (o.marketplace_id is None ==> u.marketplace_id@.len() == 0)
        },
        _ => false,
    }
}

/// One update per fill, in order.
pub open spec fn fill_events_ok(
    ev: Seq<MarketplaceEvent>,
    o: Order,
    n: Order,
    f: Seq<(int, int, bool)>,
    time: u64,
) -> bool {
    &&& ev.len() == f.len()
    &&& forall|j: int| 0 <= j < f.len() ==> #[trigger] fill_event_ok(ev[j], o, n, f, j, time)
}

/// Number of fills of the first `n` orders in a matching pass.
pub open spec fn fills_before(orders: Seq<Order>, books: Seq<MarketplaceBook>, n: int) -> int
    decreases n,
{
    if n <= 0 {
        0
    } else {
        fills_before(orders, books, n - 1) + order_fills(orders[n - 1], books).len()
    }
}

/// What a matching pass does: each order takes its fills, balances settle them in
/// order, one update per fill is reported, order by order, and books, fee rate, time
/// and source stay.
pub open spec fn matching_pass(
    a: SimulationMarketplace,
    b: SimulationMarketplace,
    events: Seq<MarketplaceEvent>,
) -> bool {
    let books = a.order_book@;
    let n = a.orders@.len() as int;
    &&& b.orders@.len() == a.orders@.len()
    &&& forall|j: int|
        0 <= j < n ==> filled_order(
            a.orders@[j],
            #[trigger] b.orders@[j],
            order_fills(a.orders@[j], books),
            a.current_time,
        )
    &&& balances(b.assets.assets@) == tick_balances(
        balances(a.assets.assets@),
        a.orders@,
        books,
        a.fees@,
        n,
    )
    &&& events.len() == fills_before(a.orders@, books, n)
    &&& forall|i: int, j: int|
        0 <= i < n && 0 <= j < order_fills(a.orders@[i], books).len() ==> #[trigger] fill_event_ok(
            events[fills_before(a.orders@, books, i) + j],
            a.orders@[i],
            b.orders@[i],
            order_fills(a.orders@[i], books),
            j,
            a.current_time,
        )
    &&& b.order_book == a.order_book
    &&& b.fees == a.fees
    &&& b.current_time == a.current_time
    &&& b.source == a.source
}

fn decide_exec(o: &Order, total: Dec, level: (Dec, Dec)) -> (r: (FillKind, Dec, bool))
    ensures
        ({
            let (k, x, ex) = decide(
                o.side,
                o.order_type,
                o.amount@,
                o.price@,
                o.filled_amount@,
                total@,
                level.0@,
                level.1@,
            );
            r.0 == k && r.1@ == x && r.2 == ex
        }),
{
    let (p, q) = level;
    let zero = Dec::zero();
    match o.order_type {
        OrderType::Market => match o.side {
            OrderSide::Buy => {
                let rem = o.amount.mul(o.price).sub(total);
                if rem.le(&zero) {
                    (FillKind::Stop, zero, false)
                } else if rem.gt(&p.mul(q)) {
                    (FillKind::Take, q, false)
                } else {
                    (FillKind::Take, rem.div(p), true)
                }
            },
            OrderSide::Sell => {
                let rem = o.amount.sub(o.filled_amount);
                if rem.le(&zero) {
                    (FillKind::Stop, zero, false)
                } else if rem.gt(&q) {
                    (FillKind::Take, q, false)
                } else {
                    (FillKind::Take, rem, true)
                }
            },
        },
        OrderType::Limit => {
            let beyond = match o.side {
                OrderSide::Buy => p.gt(&o.price),
                OrderSide::Sell => p.lt(&o.price),
            };
            let rem = o.amount.sub(o.filled_amount);
            if beyond || rem.le(&zero) {
                (FillKind::Stop, zero, false)
            } else if rem.gt(&q) {
                (FillKind::Take, q, false)
            } else {
                (FillKind::Take, rem, true)
            }
        },
        _ => (FillKind::Pass, zero, false),
    }
}

impl SimulationMarketplace {
    pub open spec fn wf(self) -> bool {
        self.assets.wf()
    }

    pub fn new(source: SimulationSource, fees: Dec) -> (r: SimulationMarketplace)
        ensures
            r.source == source,
            r.fees == fees,
            r.assets.assets@.len() == 0,
            r.orders@.len() == 0,
            r.order_book@.len() == 0,
            r.current_time == 0,
            r.wf(),
    {
        SimulationMarketplace {
            source,
            assets: Portfolio::new(),
            orders: Vec::new(),
            order_book: Vec::new(),
            current_time: 0,
            fees,
        }
    }

    /// Moves `amount` of an asset from free to locked; fails, changing nothing, when
    /// the asset is not held or is short.
    pub fn lock_funds(&mut self, asset: &str, amount: Dec) -> (r: Result<(), String>)
        ensures
            r is Ok <==> (old(self).assets.index_of(asset@) >= 0 && old(self).assets.assets@[old(
                self,
            ).assets.index_of(asset@)].amount@ >= amount@),
            r is Err ==> final(self).assets == old(self).assets,
            old(self).wf() && r is Ok ==> balances(final(self).assets.assets@) == balances(
                old(self).assets.assets@,
            ).insert(
                asset@,
                (
                    clamp(balances(old(self).assets.assets@)[asset@].0 - amount@),
                    clamp(balances(old(self).assets.assets@)[asset@].1 + amount@),
                ),
            ),
            final(self).orders == old(self).orders,
            final(self).order_book == old(self).order_book,
            final(self).fees == old(self).fees,
            final(self).current_time == old(self).current_time,
            final(self).source == old(self).source,
            old(self).wf() ==> final(self).wf(),
    {
        proof {
            crate::portfolio::lemma_balances_dom(self.assets.assets@, asset@);
            crate::portfolio::lemma_asset_index(self.assets.assets@, asset@);
        }
        let r = self.assets.reserve_funds(asset, amount);
        proof {
            if r is Ok && old(self).wf() {
                let k = old(self).assets.index_of(asset@);
                assert(self.assets.assets@ =~= old(self).assets.assets@.update(
                    k,
                    self.assets.assets@[k],
                ));
                crate::portfolio::lemma_balances_set(
                    old(self).assets.assets@,
                    k,
                    self.assets.assets@[k],
                );
            }
        }
        r
    }

    /// Adds `delta` to the free amount of an asset, valued at `current_price`.
    pub fn update_asset_amount(&mut self, symbol: &str, delta: Dec, current_price: Dec)
        ensures
            old(self).wf() ==> balances(final(self).assets.assets@) == credit_free(
                balances(old(self).assets.assets@),
                symbol@,
                delta@,
            ),
            final(self).orders == old(self).orders,
            final(self).order_book == old(self).order_book,
            final(self).fees == old(self).fees,
            final(self).current_time == old(self).current_time,
            final(self).source == old(self).source,
            old(self).wf() ==> final(self).wf(),
    {
        self.assets.update_asset_amount(symbol, delta, current_price);
    }

    /// Adds `delta` to the locked amount of an asset, valued at `current_price`.
    pub fn update_asset_locked(&mut self, symbol: &str, delta: Dec, current_price: Dec)
        ensures
            old(self).wf() ==> balances(final(self).assets.assets@) == credit_locked(
                balances(old(self).assets.assets@),
                symbol@,
                delta@,
            ),
            final(self).orders == old(self).orders,
            final(self).order_book == old(self).order_book,
            final(self).fees == old(self).fees,
            final(self).current_time == old(self).current_time,
            final(self).source == old(self).source,
            old(self).wf() ==> final(self).wf(),
    {
        self.assets.update_asset_locked(symbol, delta, current_price);
    }

    /// Settles one fill of an order of market `t` on `side`.
    fn settle(&mut self, t: &Ticker, side: OrderSide, amount: Dec, price: Dec)
        requires
            old(self).wf(),
        ensures
            final(self).wf(),
            balances(final(self).assets.assets@) == settle_fill(
                balances(old(self).assets.assets@),
                *t,
                side,
                old(self).fees@,
                amount@,
                price@,
            ),
            final(self).orders == old(self).orders,
            final(self).order_book == old(self).order_book,
            final(self).fees == old(self).fees,
            final(self).current_time == old(self).current_time,
            final(self).source == old(self).source,
    {
        let one = Dec::one();
        let keep = one.sub(self.fees);
        match side {
            OrderSide::Sell => {
                let added_quote = price.mul(amount).mul(keep);
                self.update_asset_amount(t.quote.as_str(), added_quote, one);
                self.update_asset_locked(t.base.as_str(), amount.neg(), price);
            },
            OrderSide::Buy => {
                let added_base = amount.mul(keep);
                self.update_asset_amount(t.base.as_str(), added_base, price);
                self.update_asset_locked(t.quote.as_str(), price.mul(amount).neg(), one);
            },
        }
    }
}


fn copy_levels(v: &Vec<(Dec, Dec)>) -> (r: Vec<(Dec, Dec)>)
    ensures
        r@ == v@,
{
    let mut r: Vec<(Dec, Dec)> = Vec::new();
    let mut i: usize = 0;
    while i < v.len()
        invariant
            i <= v@.len(),
            r@ == v@.subrange(0, i as int),
        decreases v@.len() - i,
    {
        r.push(v[i]);
        i = i + 1;
        proof {
            assert(r@ =~= v@.subrange(0, i as int));
        }
    }
    proof {
        assert(r@ =~= v@);
    }
    r
}

impl SimulationMarketplace {
    /// Index of the book of market `t`.
    pub fn find_book(&self, t: &Ticker) -> (r: Option<usize>)
        ensures
            match r {
                Some(k) => k == book_index(self.order_book@, *t) && k < self.order_book@.len()
                    && self.order_book@[k as int].ticker.same(*t),
                None => book_index(self.order_book@, *t) == -1,
            },
    {
        let mut i: usize = 0;
        while i < self.order_book.len()
            invariant
                i <= self.order_book@.len(),
                book_index(self.order_book@.subrange(0, i as int), *t) == -1,
            decreases self.order_book@.len() - i,
        {
            proof {
                assert(self.order_book@.subrange(0, i + 1).drop_last() =~= self.order_book@.subrange(0, i as int));
            }
            if self.order_book[i].ticker == *t {
                proof {
                    lemma_book_index_prefix(self.order_book@, *t, (i + 1) as int);
                }
                return Some(i);
            }
            i = i + 1;
        }
        proof {
            assert(self.order_book@.subrange(0, i as int) =~= self.order_book@);
        }
        None
    }

    /// Walks `levels` with the order at `i`, filling it and settling each fill.
    fn match_one(&mut self, i: usize, levels: &Vec<(Dec, Dec)>) -> (events: Vec<MarketplaceEvent>)
        requires
            old(self).wf(),
            i < old(self).orders@.len(),
        ensures
            final(self).wf(),
            ({
                let o = old(self).orders@[i as int];
                let f = fills_from(
                    o.side,
                    o.order_type,
                    o.amount@,
                    o.price@,
                    o.filled_amount@,
                    trades_total(o.trades@),
                    levels@,
                );
                &&& filled_order(o, final(self).orders@[i as int], f, old(self).current_time)
                &&& balances(final(self).assets.assets@) == settle_all(
                    balances(old(self).assets.assets@),
                    o.ticker,
                    o.side,
                    old(self).fees@,
                    f,
                )
                &&& fill_events_ok(events@, o, final(self).orders@[i as int], f, old(self).current_time)
            }),
            final(self).orders@.len() == old(self).orders@.len(),
            final(self).source == old(self).source,
            forall|j: int|
                0 <= j < old(self).orders@.len() && j != i ==> #[trigger] final(self).orders@[j]
                    == old(self).orders@[j],
            final(self).order_book == old(self).order_book,
            final(self).fees == old(self).fees,
            final(self).current_time == old(self).current_time,
    {
        let time = self.current_time;
        let mut o = self.orders.remove(i);
        let ghost o0 = o;
        let ghost rest_orders = self.orders@;
        let ghost b0 = balances(self.assets.assets@);
        let ghost f = fills_from(
            o0.side,
            o0.order_type,
            o0.amount@,
            o0.price@,
            o0.filled_amount@,
            trades_total(o0.trades@),
            levels@,
        );
        let ghost mut done: Seq<(int, int, bool)> = Seq::empty();
        let mut events: Vec<MarketplaceEvent> = Vec::new();
        let mut stopped = false;
        let mut j: usize = 0;
        proof {
            assert(levels@.subrange(0, levels@.len() as int) =~= levels@);
            assert(Seq::<(int, int, bool)>::empty() + f =~= f);
            assert(o0.trades@.subrange(0, o0.trades@.len() as int) =~= o0.trades@);
            assert(!any_completes(Seq::<(int, int, bool)>::empty()));
        }
        while j < levels.len() && !stopped
            invariant
                j <= levels@.len(),
                self.wf(),
                self.orders@ == rest_orders,
                self.order_book == old(self).order_book,
                self.fees == old(self).fees,
                self.current_time == old(self).current_time,
                time == old(self).current_time,
                o0 == old(self).orders@[i as int],
                f == fills_from(
                    o0.side,
                    o0.order_type,
                    o0.amount@,
                    o0.price@,
                    o0.filled_amount@,
                    trades_total(o0.trades@),
                    levels@,
                ),
                stopped ==> done == f,
                !stopped ==> done + fills_from(
                    o.side,
                    o.order_type,
                    o.amount@,
                    o.price@,
                    o.filled_amount@,
                    trades_total(o.trades@),
                    levels@.subrange(j as int, levels@.len() as int),
                ) == f,
                filled_order(o0, o, done, time),
                balances(self.assets.assets@) == settle_all(b0, o0.ticker, o0.side, self.fees@, done),
                b0 == balances(old(self).assets.assets@),
                fill_events_ok(events@, o0, o, done, time),
                self.source == old(self).source,
            decreases levels@.len() - j,
        {
            let level = levels[j];
            let ghost lv = levels@.subrange(j as int, levels@.len() as int);
            proof {
                assert(lv[0] == level);
                assert(lv.drop_first() =~= levels@.subrange(j + 1, levels@.len() as int));
            }
            let total = o.get_trade_total_price();
            let (kind, x, ex) = decide_exec(&o, total, level);
            match kind {
                FillKind::Stop => {
                    stopped = true;
                    proof {
                        assert(done + Seq::<(int, int, bool)>::empty() =~= done);
                    }
                },
                FillKind::Pass => {},
                FillKind::Take => {
                    let p = level.0;
                    let ghost before = o;
                    let n = o.trades.len();
                    let trade = OrderTrade { id: trade_id(&o.id, n), trade_time: time, amount: x, price: p };
                    o.filled_amount = o.filled_amount.add(x);
                    o.cumulative_quote_amount = o.cumulative_quote_amount.add(x.mul(p));
                    o.trades.push(trade.clone());
                    if ex {
                        o.status = OrderStatus::Executed;
                    }
                    let mid = match &o.marketplace_id {
                        Some(m) => m.clone(),
                        None => String::new(),
                    };
                    events.push(
                        MarketplaceEvent::OrderUpdate(
                            MarketplaceOrderUpdate {
                                time,
                                update_type: String::from_str("TRADE"),
                                marketplace_id: mid,
                                client_id: o.id.clone(),
                                status: o.status,
                                working_time: Some(time),
                                trade: Some(trade),
                            },
                        ),
                    );
                    let ghost ev_before = events@;
                    self.settle(&o.ticker, o.side, x, p);
                    proof {
                        let k0 = o0.trades@.len();
                        let d2 = done.push((x@, p@, ex));
                        assert(d2.drop_last() =~= done);
                        assert(d2.subrange(0, d2.len() as int) =~= d2);
                        assert(o.trades@.drop_last() =~= before.trades@);
                        assert(trades_total(o.trades@) == clamp(
                            trades_total(before.trades@) + mul_v(x@, p@),
                        ));
                        assert(o.trades@.subrange(0, k0 as int) =~= o0.trades@) by {
                            assert(before.trades@.subrange(0, k0 as int) == o0.trades@);
                        }
                        assert forall|q: int| 0 <= q < d2.len() implies {
                            let t = #[trigger] o.trades@[k0 + q];
                            &&& t.amount@ == d2[q].0
                            &&& t.price@ == d2[q].1
                            &&& t.trade_time == time
                            &&& t.id@ == trade_id_of(o0.id@, (k0 + q) as nat)
                        } by {
                            if q < done.len() {
                                assert(o.trades@[k0 + q] == before.trades@[k0 + q]);
                            }
                        }
                        if ex {
                            assert(d2[d2.len() - 1].2);
                        } else {
                            if any_completes(d2) {
                                let w = choose|w: int| 0 <= w < d2.len() && #[trigger] d2[w].2;
                                assert(done[w].2);
                            }
                        }
                        assert(any_completes(done) ==> any_completes(d2)) by {
                            if any_completes(done) {
                                let w = choose|w: int| 0 <= w < done.len() && #[trigger] done[w].2;
                                assert(d2[w].2);
                            }
                        }
                        assert(d2.drop_last() =~= done);
                        assert(done + (seq![(x@, p@, ex)] + fills_from(
                            o.side,
                            o.order_type,
                            o.amount@,
                            o.price@,
                            o.filled_amount@,
                            trades_total(o.trades@),
                            levels@.subrange(j + 1, levels@.len() as int),
                        )) =~= d2 + fills_from(
                            o.side,
                            o.order_type,
                            o.amount@,
                            o.price@,
                            o.filled_amount@,
                            trades_total(o.trades@),
                            levels@.subrange(j + 1, levels@.len() as int),
                        ));
                        assert forall|q: int| 0 <= q < d2.len() implies #[trigger] fill_event_ok(
                            events@[q],
                            o0,
                            o,
                            d2,
                            q,
                            time,
                        ) by {
                            assert(d2.subrange(0, q + 1) =~= if q < done.len() {
                                done.subrange(0, q + 1)
                            } else {
                                d2
                            });
                            if q == done.len() {
                                assert(o.trades@[k0 + q] == trade);
                                assert(o.status == status_after(o0.status, d2));
                            }
                            if q < done.len() {
                                assert(events@[q] == ev_before[q]);
                                assert(fill_event_ok(ev_before[q], o0, before, done, q, time));
                                assert(o.trades@[k0 + q] == before.trades@[k0 + q]);
                            }
                        }
                        done = d2;
                    }
                },
            }
            j = j + 1;
        }
        proof {
            if !stopped {
                assert(levels@.subrange(j as int, levels@.len() as int) =~= Seq::<(Dec, Dec)>::empty());
                assert(done + Seq::<(int, int, bool)>::empty() =~= done);
            }
        }
        self.orders.insert(i, o);
        proof {
            assert forall|q: int|
                0 <= q < old(self).orders@.len() && q != i implies #[trigger] self.orders@[q]
                == old(self).orders@[q] by {}
        }
        events
    }

    /// One matching pass: every active order walks the opposing side of its market's
    /// book, from the best level outward, and each fill is recorded, reported and settled.
    pub fn match_order_on_book(&mut self) -> (events: Vec<MarketplaceEvent>)
        requires
            old(self).wf(),
        ensures
            final(self).wf(),
            matching_pass(*old(self), *final(self), events@),
    {
        let mut events: Vec<MarketplaceEvent> = Vec::new();
        let ghost orders0 = self.orders@;
        let ghost m0 = balances(self.assets.assets@);
        let mut i: usize = 0;
        while i < self.orders.len()
            invariant
                i <= self.orders@.len(),
                self.wf(),
                self.orders@.len() == orders0.len(),
                orders0 == old(self).orders@,
                m0 == balances(old(self).assets.assets@),
                self.order_book == old(self).order_book,
                self.fees == old(self).fees,
                self.current_time == old(self).current_time,
                forall|j: int|
                    0 <= j < i ==> filled_order(
                        orders0[j],
                        #[trigger] self.orders@[j],
                        order_fills(orders0[j], self.order_book@),
                        self.current_time,
                    ),
                forall|j: int| i <= j < orders0.len() ==> #[trigger] self.orders@[j] == orders0[j],
                balances(self.assets.assets@) == tick_balances(
                    m0,
                    orders0,
                    self.order_book@,
                    self.fees@,
                    i as int,
                ),
                self.source == old(self).source,
                events@.len() == fills_before(orders0, self.order_book@, i as int),
                forall|x: int, j: int|
                    0 <= x < i && 0 <= j < order_fills(orders0[x], self.order_book@).len()
                        ==> #[trigger] fill_event_ok(
                        events@[fills_before(orders0, self.order_book@, x) + j],
                        orders0[x],
                        self.orders@[x],
                        order_fills(orders0[x], self.order_book@),
                        j,
                        self.current_time,
                    ),
            decreases orders0.len() - i,
        {
            let ghost o = orders0[i as int];
            let mut matched = false;
            if self.orders[i].status == OrderStatus::Active {
                if let Some(b) = self.find_book(&self.orders[i].ticker) {
                    let levels = match self.orders[i].side {
                        OrderSide::Sell => copy_levels(&self.order_book[b].bids),
                        OrderSide::Buy => copy_levels(&self.order_book[b].asks),
                    };
                    let ghost mid = *self;
                    let ghost ev0 = events@;
                    assert(ev0.len() == fills_before(orders0, mid.order_book@, i as int));
                    let mut ev = self.match_one(i, &levels);
                    let ghost evs = ev@;
                    events.append(&mut ev);
                    matched = true;
                    proof {
                        let books = self.order_book@;
                        assert(events@ =~= ev0 + evs);
                        assert(fills_before(orders0, books, i + 1) == fills_before(orders0, books, i as int)
                            + order_fills(orders0[i as int], books).len());
                        assert forall|x: int, j: int|
                            0 <= x < i + 1 && 0 <= j < order_fills(orders0[x], books).len()
                                implies #[trigger] fill_event_ok(
                                events@[fills_before(orders0, books, x) + j],
                                orders0[x],
                                self.orders@[x],
                                order_fills(orders0[x], books),
                                j,
                                self.current_time,
                            ) by {
                            if x < i {
                                lemma_fills_before_mono(orders0, books, x + 1, i as int);
                                assert(fills_before(orders0, books, x + 1) == fills_before(orders0, books, x)
                                    + order_fills(orders0[x], books).len());
                                assert(self.orders@[x] == mid.orders@[x]);
                                lemma_fills_before_mono(orders0, books, 0, x);
                                assert(fills_before(orders0, books, x) + j < ev0.len());
                                assert((ev0 + evs)[fills_before(orders0, books, x) + j] == ev0[fills_before(orders0, books, x) + j]);
                                assert(events@[fills_before(orders0, books, x) + j] == ev0[fills_before(orders0, books, x) + j]);
                            } else {
                                lemma_fills_before_mono(orders0, books, 0, x);
                                assert(events@[fills_before(orders0, books, x) + j] == evs[j]);
                            }
                        }
                        assert forall|j: int| 0 <= j < i implies filled_order(
                            orders0[j],
                            #[trigger] self.orders@[j],
                            order_fills(orders0[j], self.order_book@),
                            self.current_time,
                        ) by {
                            assert(self.orders@[j] == mid.orders@[j]);
                        }
                    }
                }
            }
            if !matched {
                proof {
                    assert(order_fills(o, self.order_book@) =~= Seq::<(int, int, bool)>::empty());
                    assert(o.trades@.subrange(0, o.trades@.len() as int) =~= o.trades@);
                    assert(!any_completes(Seq::<(int, int, bool)>::empty()));
                    let books = self.order_book@;
                    assert forall|x: int, j: int|
                        0 <= x < i + 1 && 0 <= j < order_fills(orders0[x], books).len()
                            implies #[trigger] fill_event_ok(
                            events@[fills_before(orders0, books, x) + j],
                            orders0[x],
                            self.orders@[x],
                            order_fills(orders0[x], books),
                            j,
                            self.current_time,
                        ) by {
                        if x == i {
                            assert(order_fills(orders0[x], books).len() == 0);
                        }
                    }
                    assert(fills_before(orders0, books, i + 1) == fills_before(orders0, books, i as int)
                        + order_fills(orders0[i as int], books).len());
                }
            }
            i = i + 1;
        }
        events
    }

    /// A matching pass when the exchange is driven by books; nothing otherwise.
    pub fn tick(&mut self) -> (events: Vec<MarketplaceEvent>)
        requires
            old(self).wf(),
        ensures
            final(self).wf(),
            old(self).source == SimulationSource::Book ==> matching_pass(
                *old(self),
                *final(self),
                events@,
            ),
            old(self).source != SimulationSource::Book ==> *final(self) == *old(self)
                && events@.len() == 0,
    {
        if self.source == SimulationSource::Book {
            self.match_order_on_book()
        } else {
            Vec::new()
        }
    }
}

proof fn lemma_fills_before_mono(
    orders: Seq<Order>,
    books: Seq<MarketplaceBook>,
    a: int,
    b: int,
)
    requires
        a <= b,
    ensures
        fills_before(orders, books, a) <= fills_before(orders, books, b),
    decreases b - a,
{
    if a < b {
        lemma_fills_before_mono(orders, books, a, b - 1);
    }
}

proof fn lemma_book_index_prefix(books: Seq<MarketplaceBook>, t: Ticker, n: int)
    requires
        0 < n <= books.len(),
        book_index(books.subrange(0, n - 1), t) == -1,
        books[n - 1].ticker.same(t),
    ensures
        book_index(books, t) == n - 1,
    decreases books.len(),
{
    let p = books.subrange(0, n);
    assert(p.drop_last() =~= books.subrange(0, n - 1));
    if n < books.len() {
        assert(books.drop_last().subrange(0, n - 1) =~= books.subrange(0, n - 1));
        lemma_book_index_prefix(books.drop_last(), t, n);
    } else {
        assert(p =~= books);
    }
}


pub open spec fn in_markets(tickers: Seq<Ticker>, o: Order) -> bool {
    exists|k: int| 0 <= k < tickers.len() && (#[trigger] tickers[k]).same(o.ticker)
}

pub open spec fn in_markets_pred(tickers: Seq<Ticker>) -> spec_fn(Order) -> bool {
    |o: Order| in_markets(tickers, o)
}

/// The asset an order locks on a simulated exchange, and how much: a buy locks
/// `amount * price` of quote, a sell `amount` of base.
pub open spec fn lock_of(o: Order) -> (Seq<char>, int) {
    match o.side {
        OrderSide::Buy => (o.ticker.quote@, mul_v(o.amount@, o.price@)),
        OrderSide::Sell => (o.ticker.base@, o.amount@),
    }
}

pub open spec fn lock_ok(p: Portfolio, o: Order) -> bool {
    p.index_of(lock_of(o).0) >= 0 && p.assets@[p.index_of(lock_of(o).0)].amount@ >= lock_of(o).1
}

impl SimulationMarketplace {
    /// Accepts an order: locks what it needs and makes it active, stamped with the
    /// current time; an order whose funds cannot be locked is rejected. Either way it is
    /// given an exchange id and kept. Returns the order as kept and the update to report.
    pub fn place_order(&mut self, order: &Order) -> (r: (Order, MarketplaceEvent))
        requires
            old(self).wf(),
        ensures
            final(self).wf(),
            lock_ok(old(self).assets, *order) ==> {
                &&& r.0.status == OrderStatus::Active
                &&& r.0.working_time == Some(old(self).current_time)
                &&& balances(final(self).assets.assets@) == balances(
                    old(self).assets.assets@,
                ).insert(
                    lock_of(*order).0,
                    (
                        clamp(balances(old(self).assets.assets@)[lock_of(*order).0].0 - lock_of(
                            *order,
                        ).1),
                        clamp(balances(old(self).assets.assets@)[lock_of(*order).0].1 + lock_of(
                            *order,
                        ).1),
                    ),
                )
            },
            !lock_ok(old(self).assets, *order) ==> {
                &&& r.0.status == OrderStatus::Rejected
                &&& final(self).assets == old(self).assets
            },
            r.0.marketplace_id is Some,
            r.0.id == order.id && r.0.ticker == order.ticker && r.0.side == order.side,
            r.0.amount == order.amount && r.0.price == order.price,
            r.0.order_type == order.order_type,
            r.0.quote_amount == order.quote_amount && r.0.fees == order.fees,
            r.0.session_id == order.session_id && r.0.creation_time == order.creation_time,
            r.0.prev_order_id == order.prev_order_id && r.0.next_order_id == order.next_order_id,
            r.0.filled_amount == order.filled_amount,
            r.0.cumulative_quote_amount == order.cumulative_quote_amount,
            r.0.trades@ == order.trades@,
            !lock_ok(old(self).assets, *order) ==> r.0.working_time == order.working_time,
            match r.1 {
                MarketplaceEvent::OrderUpdate(u) => {
                    &&& u.client_id == order.id
                    &&& u.status == r.0.status
                    &&& u.marketplace_id == r.0.marketplace_id->Some_0
                    &&& u.update_type@ == "NEW"@
                    &&& u.time == old(self).current_time
                    &&& u.working_time is None
                    &&& u.trade is None
                },
                _ => false,
            },
            final(self).fees == old(self).fees,
            final(self).source == old(self).source,
            final(self).orders@.len() == old(self).orders@.len() + 1,
            final(self).orders@.subrange(0, old(self).orders@.len() as int) == old(self).orders@,
            final(self).orders@.last().same(r.0),
            final(self).order_book == old(self).order_book,
            final(self).current_time == old(self).current_time,
    {
        let time = self.current_time;
        let mut placed = order.clone();
        let (asset, need) = match placed.side {
            OrderSide::Buy => (placed.ticker.quote.clone(), placed.amount.mul(placed.price)),
            OrderSide::Sell => (placed.ticker.base.clone(), placed.amount),
        };
        match self.lock_funds(asset.as_str(), need) {
            Ok(()) => {
                placed.working_time = Some(time);
                placed.status = OrderStatus::Active;
            },
            Err(_) => {
                placed.status = OrderStatus::Rejected;
            },
        }
        let mid = fresh_id();
        placed.marketplace_id = Some(mid.clone());
        let kept = placed.clone();
        self.orders.push(kept);
        proof {
            assert(self.orders@.subrange(0, old(self).orders@.len() as int) =~= old(self).orders@);
        }
        let update = MarketplaceOrderUpdate {
            time,
            update_type: String::from_str("NEW"),
            marketplace_id: mid,
            client_id: placed.id.clone(),
            status: placed.status,
            working_time: None,
            trade: None,
        };
        (placed, MarketplaceEvent::OrderUpdate(update))
    }

    /// Follows market data: takes the event's time as the current time and keeps the
    /// latest book of each market.
    pub fn on_market_event(&mut self, event: &MarketplaceEvent)
        ensures
            final(self).current_time == match event.get_time_spec() {
                Some(t) => t,
                None => old(self).current_time,
            },
            final(self).orders == old(self).orders,
            final(self).assets == old(self).assets,
            final(self).fees == old(self).fees,
            final(self).source == old(self).source,
            match event {
                MarketplaceEvent::Book(b) => {
                    let k = book_index(final(self).order_book@, b.ticker);
                    &&& k >= 0
                    &&& final(self).order_book@[k].asks@ == b.asks@
                    &&& final(self).order_book@[k].bids@ == b.bids@
                    &&& final(self).order_book@[k].time == b.time
                },
                _ => final(self).order_book == old(self).order_book,
            },
    {
        if let Some(t) = event.get_time() {
            self.current_time = t;
        }
        if let MarketplaceEvent::Book(b) = event {
            let copy = b.clone();
            match self.find_book(&b.ticker) {
                Some(k) => {
                    self.order_book.set(k, copy);
                    proof {
                        lemma_book_index_set(old(self).order_book@, b.ticker, k as int, copy);
                    }
                },
                None => {
                    self.order_book.push(copy);
                    proof {
                        assert(self.order_book@.drop_last() =~= old(self).order_book@);
                    }
                },
            }
        }
    }

    /// The orders of the given markets.
    pub fn get_orders(&self, tickers: &[Ticker]) -> (r: Vec<Order>)
        ensures
            r@.len() == crate::state::matching_indices(
                self.orders@,
                in_markets_pred(tickers@),
            ).len(),
            forall|j: int|
                0 <= j < r@.len() ==> (#[trigger] r@[j]).same(
                    self.orders@[crate::state::matching_indices(
                        self.orders@,
                        in_markets_pred(tickers@),
                    )[j] as int],
                ),
    {
        let mut out: Vec<Order> = Vec::new();
        let ghost mut idx: Seq<usize> = Seq::empty();
        let mut i: usize = 0;
        while i < self.orders.len()
            invariant
                i <= self.orders@.len(),
                idx == crate::state::matching_indices(self.orders@.subrange(0, i as int), in_markets_pred(tickers@)),
                out@.len() == idx.len(),
                forall|j: int| 0 <= j < idx.len() ==> #[trigger] idx[j] < i,
                forall|j: int| 0 <= j < out@.len() ==> (#[trigger] out@[j]).same(self.orders@[idx[j] as int]),
            decreases self.orders@.len() - i,
        {
            proof {
                let q = self.orders@.subrange(0, i + 1);
                assert(q.drop_last() =~= self.orders@.subrange(0, i as int));
                assert(q.last() == self.orders@[i as int]);
            }
            let mut hit = false;
            let mut k: usize = 0;
            while k < tickers.len()
                invariant
                    k <= tickers@.len(),
                    i < self.orders@.len(),
                    hit == exists|q: int| 0 <= q < k && (#[trigger] tickers@[q]).same(self.orders@[i as int].ticker),
                decreases tickers@.len() - k,
            {
                if tickers[k] == self.orders[i].ticker {
                    hit = true;
                    proof {
                        assert(tickers@[k as int].same(self.orders@[i as int].ticker));
                    }
                }
                k = k + 1;
            }
            proof {
                assert(in_markets(tickers@, self.orders@[i as int]) == hit);
            }
            let ghost old_idx = idx;
            if hit {
                out.push(self.orders[i].clone());
                proof {
                    idx = idx.push(i);
                }
            }
            proof {
                let q = self.orders@.subrange(0, i + 1);
                assert(q.drop_last() =~= self.orders@.subrange(0, i as int));
                assert(q.last() == self.orders@[i as int]);
                assert(in_markets_pred(tickers@)(q.last()) == in_markets(tickers@, q.last()));
                assert(in_markets_pred(tickers@)(q.last()) == hit);
                assert(crate::state::matching_indices(q, in_markets_pred(tickers@)) == if in_markets_pred(tickers@)(q.last()) {
                    old_idx.push((q.len() - 1) as usize)
                } else {
                    old_idx
                });
            }
            i = i + 1;
        }
        proof {
            assert(self.orders@.subrange(0, i as int) =~= self.orders@);
        }
        out
    }

    /// The balances held.
    pub fn get_account_assets(&self) -> (r: Vec<Asset>)
        ensures
            r@ == self.assets.assets@,
    {
        let mut r: Vec<Asset> = Vec::new();
        let mut i: usize = 0;
        while i < self.assets.assets.len()
            invariant
                i <= self.assets.assets@.len(),
                r@ == self.assets.assets@.subrange(0, i as int),
            decreases self.assets.assets@.len() - i,
        {
            r.push(self.assets.assets[i].clone());
            i = i + 1;
            proof {
                assert(r@ =~= self.assets.assets@.subrange(0, i as int));
            }
        }
        proof {
            assert(r@ =~= self.assets.assets@);
        }
        r
    }
}

proof fn lemma_book_index_set(books: Seq<MarketplaceBook>, t: Ticker, k: int, b: MarketplaceBook)
    requires
        k == book_index(books, t),
        0 <= k < books.len(),
        b.ticker.same(t),
    ensures
        book_index(books.update(k, b), t) == k,
    decreases books.len(),
{
    let n = books.update(k, b);
    if k < books.len() - 1 {
        assert(n.drop_last() =~= books.drop_last().update(k, b));
        lemma_book_index_set(books.drop_last(), t, k, b);
    } else {
        assert(n.drop_last() =~= books.drop_last());
    }
}

} // verus!
