use scalper::dec::Dec;
use scalper::market::{MarketplaceBook, MarketplaceEvent, MarketplaceTrade};
use scalper::order::{Order, OrderStatus, OrderType};
use scalper::portfolio::Asset;
use scalper::replay::ReplayMarketplace;
use scalper::simulation::{SimulationMarketplace, SimulationSource};
use scalper::ticker::Ticker;

fn n(v: i64) -> Dec {
    Dec::from_int(v)
}

fn d(m: i128, scale: u32) -> Dec {
    Dec::from_parts(m, scale)
}

fn btc() -> Ticker {
    Ticker::new("BTC", "USDT")
}

fn held(m: &SimulationMarketplace, symbol: &str) -> (Dec, Dec) {
    let a = m.get_account_assets().into_iter().find(|a| a.symbol == symbol).unwrap();
    (a.amount, a.locked)
}

fn market(usdt: i64, btc_amount: i64) -> SimulationMarketplace {
    let mut m = SimulationMarketplace::new(SimulationSource::Book, d(1, 3));
    m.assets.update_asset(Asset { symbol: "USDT".to_string(), amount: n(usdt), locked: n(0), value: None });
    m.assets.update_asset(Asset { symbol: "BTC".to_string(), amount: n(btc_amount), locked: n(0), value: None });
    m
}

fn book(time: u64) -> MarketplaceEvent {
    MarketplaceEvent::Book(MarketplaceBook {
        ticker: btc(),
        first_update_id: 1,
        final_update_id: 2,
        time,
        asks: vec![(n(100), n(2)), (n(101), n(5))],
        bids: vec![(n(99), n(1)), (n(98), n(5))],
    })
}

#[test]
fn place_order_locks_funds_and_activates() {
    let mut m = market(1000, 0);
    m.on_market_event(&book(7));
    let order = Order::new_buy(btc(), n(3), n(100), n(300), 0, None);
    let (kept, update) = m.place_order(&order);
    assert_eq!(kept.status, OrderStatus::Active);
    assert_eq!(kept.working_time, Some(7));
    assert!(kept.marketplace_id.is_some());
    assert_eq!(kept.session_id, order.session_id);
    match update {
        MarketplaceEvent::OrderUpdate(u) => {
            assert_eq!(u.client_id, order.id);
            assert_eq!(u.status, OrderStatus::Active);
            assert_eq!(Some(u.marketplace_id), kept.marketplace_id);
        }
        _ => panic!("expected an order update"),
    }
    assert_eq!(held(&m, "USDT"), (n(700), n(300)));
}

#[test]
fn place_order_without_funds_is_rejected() {
    let mut m = market(100, 0);
    let order = Order::new_buy(btc(), n(3), n(100), n(300), 0, None);
    let (kept, update) = m.place_order(&order);
    assert_eq!(kept.status, OrderStatus::Rejected);
    match update {
        MarketplaceEvent::OrderUpdate(u) => assert_eq!(u.status, OrderStatus::Rejected),
        _ => panic!("expected an order update"),
    }
    assert_eq!(held(&m, "USDT"), (n(100), n(0)));
    assert_eq!(m.orders.len(), 1);
}

#[test]
fn market_buy_walks_asks_and_settles() {
    let mut m = market(1000, 0);
    m.on_market_event(&book(7));
    let order = Order::new_buy(btc(), n(3), n(100), n(300), 0, None);
    m.place_order(&order);
    let events = m.tick();
    // 2 at 100, then 100 quote more at 101: 100/101 BTC
    assert_eq!(events.len(), 2);
    match &events[1] {
        MarketplaceEvent::OrderUpdate(u) => {
            assert_eq!(u.client_id, m.orders[0].id);
            assert_eq!(u.status, OrderStatus::Executed);
            assert_eq!(u.trade.as_ref().unwrap().id, format!("{}-1", m.orders[0].id));
        }
        _ => panic!("expected an order update"),
    }
    match &events[0] {
        MarketplaceEvent::OrderUpdate(u) => assert_eq!(u.status, OrderStatus::Active),
        _ => panic!("expected an order update"),
    }
    let o = &m.orders[0];
    assert_eq!(o.status, OrderStatus::Executed);
    assert_eq!(o.trades.len(), 2);
    assert_eq!(o.trades[0].amount, n(2));
    assert_eq!(o.trades[0].price, n(100));
    assert_eq!(o.trades[0].id, format!("{}-0", o.id));
    assert_eq!(o.trades[1].price, n(101));
    assert_eq!(o.trades[1].amount, n(100).div(n(101)));
    let taken = n(2).add(n(100).div(n(101)));
    assert_eq!(o.filled_amount, taken);
    // base credited net of fee, locked quote debited by the notional
    let (btc_free, _) = held(&m, "BTC");
    let net = n(2).mul(d(999, 3)).add(n(100).div(n(101)).mul(d(999, 3)));
    assert_eq!(btc_free, net);
    let notional = n(200).add(n(101).mul(n(100).div(n(101))));
    assert_eq!(held(&m, "USDT"), (n(700), n(300).sub(notional)));
}

#[test]
fn limit_sell_fills_only_at_its_price() {
    let mut m = market(0, 5);
    m.on_market_event(&book(7));
    let mut order = Order::new_sell(btc(), n(4), n(99), 0, None);
    order.order_type = OrderType::Limit;
    m.place_order(&order);
    m.tick();
    let o = &m.orders[0];
    // only the 99 bid is at or above the limit: 1 filled, still active
    assert_eq!(o.status, OrderStatus::Active);
    assert_eq!(o.filled_amount, n(1));
    assert_eq!(held(&m, "BTC"), (n(1), n(3)));
    assert_eq!(held(&m, "USDT"), (n(99).mul(d(999, 3)), n(0)));
}

#[test]
fn matching_needs_book_source() {
    let mut m = SimulationMarketplace::new(SimulationSource::Trades, d(1, 3));
    m.assets.update_asset(Asset { symbol: "USDT".to_string(), amount: n(1000), locked: n(0), value: None });
    m.on_market_event(&book(7));
    m.place_order(&Order::new_buy(btc(), n(1), n(100), n(100), 0, None));
    assert!(m.tick().is_empty());
    assert_eq!(m.orders[0].filled_amount, n(0));
}

fn replay_run() -> (Vec<(Dec, Dec)>, (Dec, Dec), (Dec, Dec)) {
    let mut m = market(1000, 0);
    let mut order = Order::new_buy(btc(), n(3), n(100), n(300), 0, None);
    order.id = "fixed".to_string();
    m.on_market_event(&book(7));
    m.place_order(&order);
    m.tick();
    m.on_market_event(&book(8));
    m.tick();
    let fills = m.orders[0].trades.iter().map(|t| (t.amount, t.price)).collect();
    (fills, held(&m, "USDT"), held(&m, "BTC"))
}

#[test]
fn replaying_the_same_log_gives_the_same_fills() {
    assert_eq!(replay_run(), replay_run());
}

#[test]
fn books_are_kept_per_market() {
    let mut m = market(0, 0);
    m.on_market_event(&book(7));
    m.on_market_event(&book(9));
    assert_eq!(m.order_book.len(), 1);
    assert_eq!(m.current_time, 9);
    let eth = MarketplaceEvent::Trade(MarketplaceTrade { trade_id: 1, trade_time: 11, ticker: Ticker::new("ETH", "BTC"), price: n(1), quantity: n(1) });
    m.on_market_event(&eth);
    assert_eq!(m.current_time, 11);
    assert_eq!(m.order_book.len(), 1);
}

#[test]
fn orders_listed_by_market() {
    let mut m = market(1000, 0);
    m.place_order(&Order::new_buy(btc(), n(1), n(100), n(100), 0, None));
    m.place_order(&Order::new_buy(Ticker::new("ETH", "USDT"), n(1), n(10), n(10), 0, None));
    assert_eq!(m.get_orders(&[btc()]).len(), 1);
    assert_eq!(m.get_orders(&[]).len(), 0);
}

#[test]
fn replay_forwards_followed_market_data() {
    let mut r = ReplayMarketplace::new();
    assert!(!r.paused);
    r.toggle_pause();
    assert!(r.paused);
    assert!(r.should_forward(&book(1), &[btc()]));
    assert!(!r.should_forward(&book(1), &[Ticker::new("ETH", "USDT")]));
    assert_eq!(r.get_start_time(&book(42)), Some(42));
}

#[test]
fn decimal_text_of_numbers() {
    assert_eq!(scalper::simulation::decimal_string(0), "0");
    assert_eq!(scalper::simulation::decimal_string(7), "7");
    assert_eq!(scalper::simulation::decimal_string(1204), "1204");
}
