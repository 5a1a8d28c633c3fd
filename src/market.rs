use crate::dec::Dec;
use crate::order::{OrderStatus, OrderTrade};
use crate::portfolio::Asset;
use crate::ticker::Ticker;
use vstd::prelude::*;
use vstd::string::StrSliceExecFns;

verus! {

/// A public trade on a market.
#[derive(Debug)]
pub struct MarketplaceTrade {
    pub trade_id: u64,
    pub trade_time: u64,
    pub ticker: Ticker,
    pub price: Dec,
    pub quantity: Dec,
}

impl Clone for MarketplaceTrade {
    fn clone(&self) -> (r: MarketplaceTrade)
        ensures
            r == *self,
    {
        MarketplaceTrade {
            trade_id: self.trade_id,
            trade_time: self.trade_time,
            ticker: self.ticker.clone(),
            price: self.price,
            quantity: self.quantity,
        }
    }
}

/// A candle of a market; `closed` once its interval is over.
#[derive(Debug)]
pub struct MarketplaceCandle {
    pub ticker: Ticker,
    pub open_price: Dec,
    pub close_price: Dec,
    pub high_price: Dec,
    pub low_price: Dec,
    pub trade_count: u64,
    pub start_time: u64,
    pub close_time: u64,
    pub volume: Dec,
    pub closed: bool,
}

impl Clone for MarketplaceCandle {
    fn clone(&self) -> (r: MarketplaceCandle)
        ensures
            r == *self,
    {
        MarketplaceCandle {
            ticker: self.ticker.clone(),
            open_price: self.open_price,
            close_price: self.close_price,
            high_price: self.high_price,
            low_price: self.low_price,
            trade_count: self.trade_count,
            start_time: self.start_time,
            close_time: self.close_time,
            volume: self.volume,
            closed: self.closed,
        }
    }
}

/// A snapshot of an order book: levels of (price, quantity), best first.
#[derive(Debug)]
pub struct MarketplaceBook {
    pub ticker: Ticker,
    pub first_update_id: u64,
    pub final_update_id: u64,
    pub time: u64,
    pub asks: Vec<(Dec, Dec)>,
    pub bids: Vec<(Dec, Dec)>,
}

impl Clone for MarketplaceBook {
    fn clone(&self) -> (r: MarketplaceBook)
        ensures
            r.ticker == self.ticker,
            r.time == self.time,
            r.first_update_id == self.first_update_id,
            r.final_update_id == self.final_update_id,
            r.asks@ == self.asks@,
            r.bids@ == self.bids@,
    {
        let mut asks: Vec<(Dec, Dec)> = Vec::new();
        let mut i: usize = 0;
        while i < self.asks.len()
            invariant
                i <= self.asks@.len(),
                asks@ == self.asks@.subrange(0, i as int),
            decreases self.asks@.len() - i,
        {
            asks.push(self.asks[i]);
            i = i + 1;
            proof {
                assert(asks@ =~= self.asks@.subrange(0, i as int));
            }
        }
        let mut bids: Vec<(Dec, Dec)> = Vec::new();
        let mut i: usize = 0;
        while i < self.bids.len()
            invariant
                i <= self.bids@.len(),
                bids@ == self.bids@.subrange(0, i as int),
            decreases self.bids@.len() - i,
        {
            bids.push(self.bids[i]);
            i = i + 1;
            proof {
                assert(bids@ =~= self.bids@.subrange(0, i as int));
            }
        }
        proof {
            assert(asks@ =~= self.asks@);
            assert(bids@ =~= self.bids@);
        }
        MarketplaceBook {
            ticker: self.ticker.clone(),
            first_update_id: self.first_update_id,
            final_update_id: self.final_update_id,
            time: self.time,
            asks,
            bids,
        }
    }
}

impl MarketplaceBook {
    /// Best bid: the price a sell gets now.
    pub fn buy_price(&self) -> (r: Option<Dec>)
        ensures
            self.bids@.len() == 0 ==> r is None,
            self.bids@.len() > 0 ==> r == Some(self.bids@[0].0),
    {
        if self.bids.len() == 0 {
            None
        } else {
            Some(self.bids[0].0)
        }
    }

    /// Best ask: the price a buy pays now.
    pub fn sell_price(&self) -> (r: Option<Dec>)
        ensures
            self.asks@.len() == 0 ==> r is None,
            self.asks@.len() > 0 ==> r == Some(self.asks@[0].0),
    {
        if self.asks.len() == 0 {
            None
        } else {
            Some(self.asks[0].0)
        }
    }
}

/// New balances reported by an account.
#[derive(Debug)]
pub struct MarketplacePortfolioUpdate {
    pub time: u64,
    pub assets: Vec<Asset>,
}

/// An order update reported by an exchange.
#[derive(Debug)]
pub struct MarketplaceOrderUpdate {
    pub time: u64,
    pub update_type: String,
    pub marketplace_id: String,
    pub client_id: String,
    pub status: OrderStatus,
    pub working_time: Option<u64>,
    pub trade: Option<OrderTrade>,
}

/// An event of a market data or account stream.
#[derive(Debug)]
pub enum MarketplaceEvent {
    Trade(MarketplaceTrade),
    Candle(MarketplaceCandle),
    Book(MarketplaceBook),
    PortfolioUpdate(MarketplacePortfolioUpdate),
    OrderUpdate(MarketplaceOrderUpdate),
}

impl MarketplaceEvent {
    pub open spec fn get_time_spec(&self) -> Option<u64> {
        match self {
            MarketplaceEvent::Trade(e) => Some(e.trade_time),
            MarketplaceEvent::Candle(e) => Some(e.close_time),
            MarketplaceEvent::Book(e) => Some(e.time),
            _ => None,
        }
    }

    /// The market of a trade, candle or book event.
    pub fn get_ticker(&self) -> (r: Option<&Ticker>)
        ensures
            match self {
                MarketplaceEvent::Trade(e) => r == Some(&e.ticker),
                MarketplaceEvent::Candle(e) => r == Some(&e.ticker),
                MarketplaceEvent::Book(e) => r == Some(&e.ticker),
                _ => r is None,
            },
    {
        match self {
            MarketplaceEvent::Trade(e) => Some(&e.ticker),
            MarketplaceEvent::Candle(e) => Some(&e.ticker),
            MarketplaceEvent::Book(e) => Some(&e.ticker),
            _ => None,
        }
    }

    /// The time of a trade, candle (its close) or book event.
    pub fn get_time(&self) -> (r: Option<u64>)
        ensures
            r == self.get_time_spec(),
    {
        match self {
            MarketplaceEvent::Trade(e) => Some(e.trade_time),
            MarketplaceEvent::Candle(e) => Some(e.close_time),
            MarketplaceEvent::Book(e) => Some(e.time),
            _ => None,
        }
    }
}

/// Length of the part of `s` before its first `@` (all of it when there is none).
pub open spec fn before_at(s: Seq<char>) -> int
    decreases s.len(),
{
    if s.len() == 0 {
        0
    } else if s[0] == '@' {
        0
    } else {
        1 + before_at(s.drop_first())
    }
}

proof fn lemma_before_at(s: Seq<char>, i: int)
    requires
        0 <= i <= s.len(),
        forall|k: int| 0 <= k < i ==> s[k] != '@',
        i == s.len() || s[i] == '@',
    ensures
        before_at(s) == i,
    decreases i,
{
    if i > 0 {
        assert forall|k: int| 0 <= k < i - 1 implies s.drop_first()[k] != '@' by {
            assert(s.drop_first()[k] == s[k + 1]);
        }
        lemma_before_at(s.drop_first(), i - 1);
    }
}

/// The market of a combined-stream name such as `btcusdt@depth`: the part before the
/// first `@`, read as a ticker.
pub fn extract_ticker_from_stream(stream: &str) -> (r: Option<Ticker>)
    ensures
        (before_at(stream@) == 6 || before_at(stream@) == 7) <==> r is Some,
        r is Some ==> r->Some_0.base@ == stream@.subrange(0, 3) && r->Some_0.quote@
            == stream@.subrange(3, before_at(stream@)),
{
    let n = stream.unicode_len();
    let mut i: usize = 0;
    while i < n
        invariant
            n == stream@.len(),
            i <= n,
            forall|k: int| 0 <= k < i ==> stream@[k] != '@',
        ensures
            i <= n,
            forall|k: int| 0 <= k < i ==> stream@[k] != '@',
            i == n || stream@[i as int] == '@',
        decreases n - i,
    {
        if stream.get_char(i) == '@' {
            break;
        }
        i = i + 1;
    }
    proof {
        lemma_before_at(stream@, i as int);
    }
    let head = stream.substring_char(0, i);
    match Ticker::try_from(head) {
        Ok(t) => {
            proof {
                assert(head@.subrange(0, 3) =~= stream@.subrange(0, 3));
                assert(head@.subrange(3, head@.len() as int) =~= stream@.subrange(3, i as int));
            }
            Some(t)
        },
        Err(_) => None,
    }
}

} // verus!
