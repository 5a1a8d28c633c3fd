use crate::dec::{clamp, tdiv, Dec, SCALE};
use crate::market::MarketplaceOrderUpdate;
use crate::ticker::{str_eq, Ticker};
use vstd::string::StringExecFns;
use vstd::prelude::*;

verus! {

broadcast use crate::dec::lemma_dec_bounded;

#[derive(Clone, Copy, Debug, PartialEq, Eq, Structural)]
pub enum OrderSide {
    Buy,
    Sell,
}

#[derive(Clone, Copy, Debug, PartialEq, Eq, Structural)]
pub enum OrderType {
    Market,
    Limit,
    StopLoss,
    StopLossLimit,
    TakeProfit,
    TakeProfitLimit,
    LimitMaker,
}

#[derive(Clone, Copy, Debug, PartialEq, Eq, Structural)]
pub enum OrderStatus {
    Draft,
    Sent,
    Active,
    Executed,
    PendingCancel,
    Cancelled,
    Rejected,
    Expired,
}

impl Default for OrderStatus {
    fn default() -> (r: OrderStatus)
        ensures
            r == OrderStatus::Draft,
    {
        OrderStatus::Draft
    }
}

/// Position of a status in the lifecycle `Draft < Sent < Active < PendingCancel < terminal`.
pub open spec fn status_rank(s: OrderStatus) -> int {
    match s {
        OrderStatus::Draft => 0,
        OrderStatus::Sent => 1,
        OrderStatus::Active => 2,
        OrderStatus::PendingCancel => 3,
        _ => 4,
    }
}

pub open spec fn is_terminal(s: OrderStatus) -> bool {
    status_rank(s) == 4
}

/// A status update is taken when it repeats the status or moves forward from a
/// status that is not terminal.
pub open spec fn transition_allowed(from: OrderStatus, to: OrderStatus) -> bool {
    from == to || (!is_terminal(from) && status_rank(from) <= status_rank(to))
}

/// The status an order has after an update that reports `to`.
pub open spec fn next_status(from: OrderStatus, to: OrderStatus) -> OrderStatus {
    if transition_allowed(from, to) {
        to
    } else {
        from
    }
}

impl OrderStatus {
    pub fn rank(&self) -> (r: u8)
        ensures
            r == status_rank(*self),
    {
        match self {
            OrderStatus::Draft => 0,
            OrderStatus::Sent => 1,
            OrderStatus::Active => 2,
            OrderStatus::PendingCancel => 3,
            _ => 4,
        }
    }

    pub fn is_terminal(&self) -> (r: bool)
        ensures
            r == is_terminal(*self),
    {
        self.rank() == 4
    }

    /// Whether an order in this status may take the status `to`.
    pub fn can_become(&self, to: &OrderStatus) -> (r: bool)
        ensures
            r == transition_allowed(*self, *to),
    {
        *self == *to || (!self.is_terminal() && self.rank() <= to.rank())
    }
}

/// A fill of an order.
#[derive(Debug)]
pub struct OrderTrade {
    pub id: String,
    pub trade_time: u64,
    pub amount: Dec,
    pub price: Dec,
}

impl Clone for OrderTrade {
    fn clone(&self) -> (r: OrderTrade)
        ensures
            r == *self,
    {
        OrderTrade {
            id: self.id.clone(),
            trade_time: self.trade_time,
            amount: self.amount,
            price: self.price,
        }
    }
}

#[derive(Debug)]
pub struct Order {
    pub id: String,
    pub marketplace_id: Option<String>,
    pub creation_time: u64,
    pub working_time: Option<u64>,
    pub ticker: Ticker,
    pub side: OrderSide,
    pub order_type: OrderType,
    pub status: OrderStatus,
    pub amount: Dec,
    /// Quote to spend, for a market buy.
    pub quote_amount: Dec,
    pub fees: Dec,
    /// Limit price.
    pub price: Dec,
    pub filled_amount: Dec,
    /// Quote actually spent by a buy or received by a sell.
    pub cumulative_quote_amount: Dec,
    pub trades: Vec<OrderTrade>,
    pub sell_order_price: Option<Dec>,
    pub buy_order_price: Option<Dec>,
    pub session_id: Option<String>,
    pub next_order_id: Option<String>,
    pub prev_order_id: Option<String>,
    pub profit: Dec,
}

pub fn clone_opt_string(s: &Option<String>) -> (r: Option<String>)
    ensures
        r == *s,
{
    match s {
        Some(v) => Some(v.clone()),
        None => None,
    }
}

impl Clone for Order {
    fn clone(&self) -> (r: Order)
        ensures
            r.same(*self),
    {
        let mut trades: Vec<OrderTrade> = Vec::new();
        let mut i: usize = 0;
        while i < self.trades.len()
            invariant
                i <= self.trades@.len(),
                trades@ == self.trades@.subrange(0, i as int),
            decreases self.trades@.len() - i,
        {
            trades.push(self.trades[i].clone());
            i = i + 1;
            proof {
                assert(trades@ =~= self.trades@.subrange(0, i as int));
            }
        }
        proof {
            assert(trades@ =~= self.trades@);
        }
        Order {
            id: self.id.clone(),
            marketplace_id: clone_opt_string(&self.marketplace_id),
            creation_time: self.creation_time,
            working_time: self.working_time,
            ticker: self.ticker.clone(),
            side: self.side,
            order_type: self.order_type,
            status: self.status,
            amount: self.amount,
            quote_amount: self.quote_amount,
            fees: self.fees,
            price: self.price,
            filled_amount: self.filled_amount,
            cumulative_quote_amount: self.cumulative_quote_amount,
            trades,
            sell_order_price: self.sell_order_price,
            buy_order_price: self.buy_order_price,
            session_id: clone_opt_string(&self.session_id),
            next_order_id: clone_opt_string(&self.next_order_id),
            prev_order_id: clone_opt_string(&self.prev_order_id),
            profit: self.profit,
        }
    }
}

/// Sum of the notional of each fill, added in order.
pub open spec fn trades_total(t: Seq<OrderTrade>) -> int
    decreases t.len(),
{
    if t.len() == 0 {
        0
    } else {
        clamp(
            trades_total(t.drop_last()) + clamp(
                tdiv(t.last().amount@ * t.last().price@, SCALE as int),
            ),
        )
    }
}

pub open spec fn has_trade(t: Seq<OrderTrade>, id: Seq<char>) -> bool {
    exists|i: int| 0 <= i < t.len() && #[trigger] t[i].id@ == id
}

pub open spec fn max_trade_time(t: Seq<OrderTrade>) -> Option<u64>
    decreases t.len(),
{
    if t.len() == 0 {
        None
    } else {
        match max_trade_time(t.drop_last()) {
            None => Some(t.last().trade_time),
            Some(m) => Some(
                if m >= t.last().trade_time {
                    m
                } else {
                    t.last().trade_time
                },
            ),
        }
    }
}

/// `n` is `o` after the update `u`: exchange id and working time taken, status moved
/// where the lifecycle allows, a fill appended when its id is new, all else kept.
pub open spec fn updated_order(o: Order, n: Order, u: MarketplaceOrderUpdate) -> bool {
    &&& n.marketplace_id == Some(u.marketplace_id)
    &&& n.working_time == u.working_time
    &&& n.status == next_status(o.status, u.status)
    &&& n.trades@ == match u.trade {
        Some(t) => if has_trade(o.trades@, t.id@) {
            o.trades@
        } else {
            o.trades@.push(t)
        },
        None => o.trades@,
    }
    &&& n.id == o.id && n.ticker == o.ticker && n.side == o.side
    &&& n.order_type == o.order_type && n.amount == o.amount && n.quote_amount == o.quote_amount
    &&& n.price == o.price && n.fees == o.fees && n.profit == o.profit
    &&& n.filled_amount == o.filled_amount
    &&& n.cumulative_quote_amount == o.cumulative_quote_amount
    &&& n.creation_time == o.creation_time && n.session_id == o.session_id
    &&& n.next_order_id == o.next_order_id && n.prev_order_id == o.prev_order_id
    &&& n.buy_order_price == o.buy_order_price && n.sell_order_price == o.sell_order_price
}

/// Fee rate that new orders carry: one tenth of a percent.
pub open spec fn default_fee() -> int {
    SCALE / 1000
}

/// Relies on `uuid::Uuid::new_v4` for a random identifier, in its hyphenated text form.
#[verifier::external_body]
pub(crate) fn fresh_id() -> (r: String) {
    uuid::Uuid::new_v4().to_string()
}

impl Order {
    /// Field-wise equality, with the fills compared as sequences.
    pub open spec fn same(self, o: Order) -> bool {
        &&& self.id == o.id
        &&& self.marketplace_id == o.marketplace_id
        &&& self.creation_time == o.creation_time
        &&& self.working_time == o.working_time
        &&& self.ticker == o.ticker
        &&& self.side == o.side
        &&& self.order_type == o.order_type
        &&& self.status == o.status
        &&& self.amount == o.amount
        &&& self.quote_amount == o.quote_amount
        &&& self.fees == o.fees
        &&& self.price == o.price
        &&& self.filled_amount == o.filled_amount
        &&& self.cumulative_quote_amount == o.cumulative_quote_amount
        &&& self.trades@ == o.trades@
        &&& self.sell_order_price == o.sell_order_price
        &&& self.buy_order_price == o.buy_order_price
        &&& self.session_id == o.session_id
        &&& self.next_order_id == o.next_order_id
        &&& self.prev_order_id == o.prev_order_id
        &&& self.profit == o.profit
    }

    /// Average fill price, or the order price before any fill.
    pub fn get_order_base_price(&self) -> (r: Dec)
        ensures
            self.filled_amount@ > 0 ==> r@ == clamp(
                tdiv(self.cumulative_quote_amount@ * SCALE, self.filled_amount@),
            ),
            self.filled_amount@ <= 0 ==> r == self.price,
    {
        if self.filled_amount.gt(&Dec::zero()) {
            self.cumulative_quote_amount.div(self.filled_amount)
        } else {
            self.price
        }
    }

    /// A draft market buy. With `sell_order` it continues that sell's session and
    /// links back to it; without, it opens a new session.
    pub fn new_buy(
        ticker: Ticker,
        amount: Dec,
        price: Dec,
        quote_amount: Dec,
        creation_time: u64,
        sell_order: Option<&Order>,
    ) -> (r: Order)
        ensures
            r.ticker == ticker,
            r.amount == amount,
            r.price == price,
            r.quote_amount == quote_amount,
            r.creation_time == creation_time,
            r.side == OrderSide::Buy,
            r.order_type == OrderType::Market,
            r.status == OrderStatus::Draft,
            r.fees@ == default_fee(),
            r.profit@ == 0,
            r.filled_amount@ == 0,
            r.cumulative_quote_amount@ == 0,
            r.trades@.len() == 0,
            r.working_time is None,
            r.marketplace_id is None,
            r.next_order_id is None,
            r.buy_order_price is None,
            match sell_order {
                Some(s) => {
                    &&& r.prev_order_id == Some(s.id)
                    &&& r.session_id == s.session_id
                    &&& r.sell_order_price is Some
                    &&& r.sell_order_price->Some_0@ == trades_total(s.trades@)
                },
                None => {
                    &&& r.prev_order_id is None
                    &&& r.session_id is Some
                    &&& r.sell_order_price is None
                },
            },
    {
        let (prev_order_id, session_id, sell_order_price) = match sell_order {
            Some(s) => (Some(s.id.clone()), clone_opt_string(&s.session_id), Some(s.get_trade_total_price())),
            None => (None, Some(fresh_id()), None),
        };
        Order {
            id: fresh_id(),
            marketplace_id: None,
            creation_time,
            working_time: None,
            ticker,
            side: OrderSide::Buy,
            order_type: OrderType::Market,
            status: OrderStatus::Draft,
            amount,
            quote_amount,
            fees: Dec::from_units(10_000_000),
            price,
            filled_amount: Dec::zero(),
            cumulative_quote_amount: Dec::zero(),
            trades: Vec::new(),
            sell_order_price,
            buy_order_price: None,
            session_id,
            next_order_id: None,
            prev_order_id,
            profit: Dec::zero(),
        }
    }

    /// A draft market sell. With `buy_order` it closes that buy: same session, linked back.
    pub fn new_sell(
        ticker: Ticker,
        amount: Dec,
        price: Dec,
        creation_time: u64,
        buy_order: Option<&Order>,
    ) -> (r: Order)
        ensures
            r.ticker == ticker,
            r.amount == amount,
            r.price == price,
            r.quote_amount@ == 0,
            r.creation_time == creation_time,
            r.side == OrderSide::Sell,
            r.order_type == OrderType::Market,
            r.status == OrderStatus::Draft,
            r.fees@ == default_fee(),
            r.profit@ == 0,
            r.filled_amount@ == 0,
            r.cumulative_quote_amount@ == 0,
            r.trades@.len() == 0,
            r.working_time is None,
            r.marketplace_id is None,
            r.next_order_id is None,
            r.sell_order_price is None,
            match buy_order {
                Some(b) => {
                    &&& r.prev_order_id == Some(b.id)
                    &&& r.session_id == b.session_id
                    &&& r.buy_order_price is Some
                    &&& r.buy_order_price->Some_0@ == trades_total(b.trades@)
                },
                None => {
                    &&& r.prev_order_id is None
                    &&& r.session_id is None
                    &&& r.buy_order_price is None
                },
            },
    {
        let (prev_order_id, session_id, buy_order_price) = match buy_order {
            Some(b) => (Some(b.id.clone()), clone_opt_string(&b.session_id), Some(b.get_trade_total_price())),
            None => (None, None, None),
        };
        Order {
            id: fresh_id(),
            marketplace_id: None,
            creation_time,
            working_time: None,
            ticker,
            side: OrderSide::Sell,
            order_type: OrderType::Market,
            status: OrderStatus::Draft,
            amount,
            quote_amount: Dec::zero(),
            fees: Dec::from_units(10_000_000),
            price,
            filled_amount: Dec::zero(),
            cumulative_quote_amount: Dec::zero(),
            trades: Vec::new(),
            sell_order_price: None,
            buy_order_price,
            session_id,
            next_order_id: None,
            prev_order_id,
            profit: Dec::zero(),
        }
    }

    /// Applies an order update: the exchange id and working time always; the status
    /// only where the lifecycle allows the move; the fill only if its id is new.
    pub fn update(&mut self, update: MarketplaceOrderUpdate)
        ensures
            updated_order(*old(self), *final(self), update),
    {
        self.marketplace_id = Some(update.marketplace_id);
        self.working_time = update.working_time;
        if self.status.can_become(&update.status) {
            self.status = update.status;
        }
        if let Some(trade) = update.trade {
            let mut found = false;
            let mut i: usize = 0;
            while i < self.trades.len()
                invariant
                    i <= self.trades@.len(),
                    found == exists|j: int| 0 <= j < i && #[trigger] self.trades@[j].id@ == trade.id@,
                decreases self.trades@.len() - i,
            {
                if self.trades[i].id == trade.id {
                    found = true;
                }
                i = i + 1;
            }
            if !found {
                self.trades.push(trade);
            }
        }
    }

    /// Time of the latest fill.
    pub fn get_last_trade_time(&self) -> (r: Option<u64>)
        ensures
            r == max_trade_time(self.trades@),
    {
        let mut best: Option<u64> = None;
        let mut i: usize = 0;
        while i < self.trades.len()
            invariant
                i <= self.trades@.len(),
                best == max_trade_time(self.trades@.subrange(0, i as int)),
            decreases self.trades@.len() - i,
        {
            proof {
                assert(self.trades@.subrange(0, i + 1).drop_last() =~= self.trades@.subrange(0, i as int));
            }
            let t = self.trades[i].trade_time;
            best = match best {
                None => Some(t),
                Some(m) => Some(if m >= t { m } else { t }),
            };
            i = i + 1;
        }
        proof {
            assert(self.trades@.subrange(0, i as int) =~= self.trades@);
        }
        best
    }

    /// Quote value of all fills: the sum of amount times price.
    pub fn get_trade_total_price(&self) -> (r: Dec)
        ensures
            r@ == trades_total(self.trades@),
    {
        let mut total = Dec::zero();
        let mut i: usize = 0;
        while i < self.trades.len()
            invariant
                i <= self.trades@.len(),
                total@ == trades_total(self.trades@.subrange(0, i as int)),
            decreases self.trades@.len() - i,
        {
            proof {
                assert(self.trades@.subrange(0, i + 1).drop_last() =~= self.trades@.subrange(0, i as int));
            }
            let t = &self.trades[i];
            total = total.add(t.amount.mul(t.price));
            i = i + 1;
        }
        proof {
            assert(self.trades@.subrange(0, i as int) =~= self.trades@);
        }
        total
    }
}


pub uninterp spec fn upper_of(s: Seq<char>) -> Seq<char>;

/// Relies on `str::to_uppercase`: the upper-case text depends on the characters alone.
#[verifier::external_body]
fn uppercase(s: &str) -> (r: String)
    ensures
        r@ == upper_of(s@),
{
    s.to_uppercase()
}

pub open spec fn side_of(u: Seq<char>) -> Option<OrderSide> {
    if u == "BUY"@ {
        Some(OrderSide::Buy)
    } else if u == "SELL"@ {
        Some(OrderSide::Sell)
    } else {
        None
    }
}

pub open spec fn type_of(u: Seq<char>) -> Option<OrderType> {
    if u == "LIMIT"@ {
        Some(OrderType::Limit)
    } else if u == "MARKET"@ {
        Some(OrderType::Market)
    } else if u == "STOP_LOSS"@ {
        Some(OrderType::StopLoss)
    } else if u == "STOP_LOSS_LIMIT"@ {
        Some(OrderType::StopLossLimit)
    } else if u == "TAKE_PROFIT"@ {
        Some(OrderType::TakeProfit)
    } else if u == "TAKE_PROFIT_LIMIT"@ {
        Some(OrderType::TakeProfitLimit)
    } else if u == "LIMIT_MAKER"@ {
        Some(OrderType::LimitMaker)
    } else {
        None
    }
}

/// The status an exchange's order state maps to.
pub open spec fn status_of(s: Seq<char>) -> Option<OrderStatus> {
    if s == "PENDING_NEW"@ {
        Some(OrderStatus::Sent)
    } else if s == "NEW"@ || s == "PARTIALLY_FILLED"@ {
        Some(OrderStatus::Active)
    } else if s == "FILLED"@ {
        Some(OrderStatus::Executed)
    } else if s == "CANCELED"@ {
        Some(OrderStatus::Cancelled)
    } else if s == "REJECTED"@ {
        Some(OrderStatus::Rejected)
    } else if s == "EXPIRED"@ || s == "EXPIRED_IN_MATCH"@ {
        Some(OrderStatus::Expired)
    } else {
        None
    }
}

impl OrderSide {
    /// Reads an upper-case side name.
    pub fn from_upper(u: &str) -> (r: Result<OrderSide, String>)
        ensures
            match side_of(u@) {
                Some(x) => r == Ok::<OrderSide, String>(x),
                None => r is Err,
            },
    {
        if str_eq(u, "BUY") {
            Ok(OrderSide::Buy)
        } else if str_eq(u, "SELL") {
            Ok(OrderSide::Sell)
        } else {
            Err(String::from_str("Unknown order side"))
        }
    }

    /// Reads a side name in any case.
    pub fn try_from(value: &str) -> (r: Result<OrderSide, String>)
        ensures
            match side_of(upper_of(value@)) {
                Some(x) => r == Ok::<OrderSide, String>(x),
                None => r is Err,
            },
    {
        let u = uppercase(value);
        OrderSide::from_upper(u.as_str())
    }
}

impl OrderType {
    /// Reads an upper-case type name.
    pub fn from_upper(u: &str) -> (r: Result<OrderType, String>)
        ensures
            match type_of(u@) {
                Some(x) => r == Ok::<OrderType, String>(x),
                None => r is Err,
            },
    {
        if str_eq(u, "LIMIT") {
            Ok(OrderType::Limit)
        } else if str_eq(u, "MARKET") {
            Ok(OrderType::Market)
        } else if str_eq(u, "STOP_LOSS") {
            Ok(OrderType::StopLoss)
        } else if str_eq(u, "STOP_LOSS_LIMIT") {
            Ok(OrderType::StopLossLimit)
        } else if str_eq(u, "TAKE_PROFIT") {
            Ok(OrderType::TakeProfit)
        } else if str_eq(u, "TAKE_PROFIT_LIMIT") {
            Ok(OrderType::TakeProfitLimit)
        } else if str_eq(u, "LIMIT_MAKER") {
            Ok(OrderType::LimitMaker)
        } else {
            Err(String::from_str("Unknown order type"))
        }
    }

    /// Reads a type name in any case.
    pub fn try_from(value: &str) -> (r: Result<OrderType, String>)
        ensures
            match type_of(upper_of(value@)) {
                Some(x) => r == Ok::<OrderType, String>(x),
                None => r is Err,
            },
    {
        let u = uppercase(value);
        OrderType::from_upper(u.as_str())
    }
}

impl OrderStatus {
    /// Reads an exchange's order state.
    pub fn try_from(value: &str) -> (r: Result<OrderStatus, String>)
        ensures
            match status_of(value@) {
                Some(x) => r == Ok::<OrderStatus, String>(x),
                None => r is Err,
            },
    {
        if str_eq(value, "PENDING_NEW") {
            Ok(OrderStatus::Sent)
        } else if str_eq(value, "NEW") || str_eq(value, "PARTIALLY_FILLED") {
            Ok(OrderStatus::Active)
        } else if str_eq(value, "FILLED") {
            Ok(OrderStatus::Executed)
        } else if str_eq(value, "CANCELED") {
            Ok(OrderStatus::Cancelled)
        } else if str_eq(value, "REJECTED") {
            Ok(OrderStatus::Rejected)
        } else if str_eq(value, "EXPIRED") || str_eq(value, "EXPIRED_IN_MATCH") {
            Ok(OrderStatus::Expired)
        } else {
            Err(String::from_str("Unknown order status"))
        }
    }
}

} // verus!
