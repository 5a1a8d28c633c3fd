use crate::market::MarketplaceEvent;
use crate::ticker::Ticker;
use vstd::prelude::*;

verus! {

/// Playback state of a recorded event log: whether it is paused, and the pause between
/// records in microseconds.
#[derive(Debug, Clone, Copy)]
pub struct ReplayMarketplace {
    pub paused: bool,
    pub read_interval: u64,
}

/// Whether a recorded event is played to a run that follows `tickers`: market data
/// (books, trades, candles) of one of those markets.
pub open spec fn forwarded(e: MarketplaceEvent, tickers: Seq<Ticker>) -> bool {
    match e {
        MarketplaceEvent::Book(b) => exists|k: int| 0 <= k < tickers.len() && (#[trigger] tickers[k]).same(b.ticker),
        MarketplaceEvent::Trade(b) => exists|k: int| 0 <= k < tickers.len() && (#[trigger] tickers[k]).same(b.ticker),
        MarketplaceEvent::Candle(b) => exists|k: int| 0 <= k < tickers.len() && (#[trigger] tickers[k]).same(b.ticker),
        _ => false,
    }
}

fn follows(tickers: &[Ticker], t: &Ticker) -> (r: bool)
    ensures
        r == exists|k: int| 0 <= k < tickers@.len() && (#[trigger] tickers@[k]).same(*t),
{
    let mut k: usize = 0;
    while k < tickers.len()
        invariant
            k <= tickers@.len(),
            forall|q: int| 0 <= q < k ==> !(#[trigger] tickers@[q]).same(*t),
        decreases tickers@.len() - k,
    {
        if tickers[k] == *t {
            return true;
        }
        k = k + 1;
    }
    false
}

impl ReplayMarketplace {
    pub fn new() -> (r: ReplayMarketplace)
        ensures
            !r.paused,
            r.read_interval == 1,
    {
        ReplayMarketplace { paused: false, read_interval: 1 }
    }

    pub fn toggle_pause(&mut self)
        ensures
            final(self).paused == !old(self).paused,
            final(self).read_interval == old(self).read_interval,
    {
        self.paused = !self.paused;
    }

    /// The time the log starts at: that of its first event.
    pub fn get_start_time(&self, first: &MarketplaceEvent) -> (r: Option<u64>)
        ensures
            r == first.get_time_spec(),
    {
        first.get_time()
    }

    /// Whether a recorded event is played to a run that follows `tickers`.
    pub fn should_forward(&self, event: &MarketplaceEvent, tickers: &[Ticker]) -> (r: bool)
        ensures
            r == forwarded(*event, tickers@),
    {
        match event {
            MarketplaceEvent::Book(b) => follows(tickers, &b.ticker),
            MarketplaceEvent::Trade(b) => follows(tickers, &b.ticker),
            MarketplaceEvent::Candle(b) => follows(tickers, &b.ticker),
            _ => false,
        }
    }
}

} // verus!
