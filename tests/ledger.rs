use scalper::dec::Dec;
use scalper::market::MarketplaceOrderUpdate;
use scalper::order::{Order, OrderSide, OrderStatus, OrderTrade, OrderType};
use scalper::portfolio::{Asset, Portfolio};
use scalper::state::{OrderListFilters, OrderListSort, OrderListSortBy, State};
use scalper::ticker::Ticker;

fn n(v: i64) -> Dec {
    Dec::from_int(v)
}

fn asset(symbol: &str, amount: i64, locked: i64) -> Asset {
    Asset { symbol: symbol.to_string(), amount: n(amount), locked: n(locked), value: None }
}

fn held(p: &Portfolio, symbol: &str) -> (Dec, Dec) {
    let a = p.assets.iter().find(|a| a.symbol == symbol).unwrap();
    (a.amount, a.locked)
}

fn btc() -> Ticker {
    Ticker::new("BTC", "USDT")
}

fn state_with(usdt: i64, btc_amount: i64) -> State {
    let mut s = State::new();
    s.portfolio.update_asset(asset("USDT", usdt, 0));
    s.portfolio.update_asset(asset("BTC", btc_amount, 0));
    s
}

fn update(id: &str, status: OrderStatus, trade: Option<OrderTrade>) -> MarketplaceOrderUpdate {
    MarketplaceOrderUpdate {
        time: 1,
        update_type: "TRADE".to_string(),
        marketplace_id: "m-1".to_string(),
        client_id: id.to_string(),
        status,
        working_time: Some(5),
        trade,
    }
}

fn fill(id: &str, amount: i64, price: i64) -> OrderTrade {
    OrderTrade { id: id.to_string(), trade_time: 3, amount: n(amount), price: n(price) }
}

#[test]
fn add_order_reserves_quote_of_market_buy() {
    let mut s = state_with(1000, 0);
    let order = Order::new_buy(btc(), n(3), n(100), n(300), 10, None);
    let stored = s.add_order(order).unwrap();
    assert_eq!(stored.status, OrderStatus::Sent);
    assert_eq!(held(&s.portfolio, "USDT"), (n(700), n(300)));
    assert_eq!(s.orders.len(), 1);
}

#[test]
fn add_order_reserves_notional_of_limit_buy() {
    let mut s = state_with(1000, 0);
    let mut order = Order::new_buy(btc(), n(2), n(150), n(0), 10, None);
    order.order_type = OrderType::Limit;
    s.add_order(order).unwrap();
    assert_eq!(held(&s.portfolio, "USDT"), (n(700), n(300)));
}

#[test]
fn add_order_reserves_base_of_sell() {
    let mut s = state_with(0, 5);
    let order = Order::new_sell(btc(), n(2), n(100), 10, None);
    s.add_order(order).unwrap();
    assert_eq!(held(&s.portfolio, "BTC"), (n(3), n(2)));
}

#[test]
fn add_order_short_of_funds_reserves_nothing() {
    let mut s = state_with(100, 0);
    let order = Order::new_buy(btc(), n(3), n(100), n(300), 10, None);
    assert!(s.add_order(order).is_err());
    assert_eq!(held(&s.portfolio, "USDT"), (n(100), n(0)));
    assert!(s.orders.is_empty());
}

#[test]
fn add_order_refuses_non_draft() {
    let mut s = state_with(1000, 0);
    let mut order = Order::new_buy(btc(), n(3), n(100), n(300), 10, None);
    order.status = OrderStatus::Active;
    assert!(s.add_order(order).is_err());
    assert_eq!(held(&s.portfolio, "USDT"), (n(1000), n(0)));
}

#[test]
fn add_order_refuses_unsupported_type() {
    let mut s = state_with(1000, 0);
    let mut order = Order::new_buy(btc(), n(3), n(100), n(300), 10, None);
    order.order_type = OrderType::StopLoss;
    assert!(s.add_order(order).is_err());
    assert!(s.orders.is_empty());
}

#[test]
fn add_order_links_session_chain() {
    let mut s = state_with(1000, 5);
    let buy = s.add_order(Order::new_buy(btc(), n(1), n(100), n(100), 10, None)).unwrap();
    let sell = Order::new_sell(btc(), n(1), n(110), 20, Some(&buy));
    assert_eq!(sell.session_id, buy.session_id);
    let sell = s.add_order(sell).unwrap();
    assert_eq!(s.orders[0].next_order_id, Some(sell.id.clone()));
    assert_eq!(s.orders[1].prev_order_id, Some(buy.id.clone()));
}

#[test]
fn new_orders_get_distinct_ids() {
    let a = Order::new_buy(btc(), n(1), n(1), n(1), 0, None);
    let b = Order::new_buy(btc(), n(1), n(1), n(1), 0, None);
    assert_ne!(a.id, b.id);
    assert_ne!(a.session_id, b.session_id);
    assert_eq!(a.id.len(), 36);
}

#[test]
fn update_order_appends_new_fills_once() {
    let mut s = state_with(1000, 0);
    let o = s.add_order(Order::new_buy(btc(), n(3), n(100), n(300), 10, None)).unwrap();
    s.update_order(update(&o.id, OrderStatus::Active, Some(fill("t1", 1, 100))));
    s.update_order(update(&o.id, OrderStatus::Active, Some(fill("t1", 1, 100))));
    s.update_order(update(&o.id, OrderStatus::Executed, Some(fill("t2", 2, 100))));
    assert_eq!(s.orders[0].trades.len(), 2);
    assert_eq!(s.orders[0].status, OrderStatus::Executed);
    assert_eq!(s.orders[0].marketplace_id, Some("m-1".to_string()));
    assert_eq!(s.orders[0].get_trade_total_price(), n(300));
    assert_eq!(s.orders[0].get_last_trade_time(), Some(3));
}

#[test]
fn update_order_never_leaves_terminal_status() {
    let mut s = state_with(1000, 0);
    let o = s.add_order(Order::new_buy(btc(), n(3), n(100), n(300), 10, None)).unwrap();
    s.update_order(update(&o.id, OrderStatus::Executed, None));
    s.update_order(update(&o.id, OrderStatus::Active, None));
    assert_eq!(s.orders[0].status, OrderStatus::Executed);
    s.update_order(update(&o.id, OrderStatus::Draft, None));
    assert_eq!(s.orders[0].status, OrderStatus::Executed);
}

#[test]
fn status_moves_only_forward() {
    assert!(OrderStatus::Sent.can_become(&OrderStatus::Active));
    assert!(!OrderStatus::Active.can_become(&OrderStatus::Sent));
    assert!(OrderStatus::PendingCancel.can_become(&OrderStatus::Cancelled));
    assert!(!OrderStatus::Cancelled.can_become(&OrderStatus::Executed));
}

#[test]
fn purge_drops_old_finished_orders() {
    let day: u64 = 86_400_000;
    let mut s = state_with(1000, 0);
    let mut old = Order::new_buy(btc(), n(1), n(1), n(1), 0, None);
    old.status = OrderStatus::Executed;
    let mut old_active = Order::new_buy(btc(), n(1), n(1), n(1), 0, None);
    old_active.status = OrderStatus::Active;
    let mut recent = Order::new_buy(btc(), n(1), n(1), n(1), 10 * day, None);
    recent.status = OrderStatus::Executed;
    s.orders = vec![old, old_active, recent];
    assert_eq!(s.purge_orders(15 * day), 1);
    assert_eq!(s.orders.len(), 2);
    assert_eq!(s.orders[0].status, OrderStatus::Active);
}

fn executed(side: OrderSide, session: &str, created: u64, amount: i64, price: i64) -> Order {
    let mut o = match side {
        OrderSide::Buy => Order::new_buy(btc(), n(amount), n(price), n(amount * price), created, None),
        OrderSide::Sell => Order::new_sell(btc(), n(amount), n(price), created, None),
    };
    o.status = OrderStatus::Executed;
    o.session_id = Some(session.to_string());
    o.working_time = Some(created);
    o.filled_amount = n(amount);
    o.cumulative_quote_amount = n(amount * price);
    o.trades.push(fill(&format!("{}-{}", session, created), amount, price));
    o
}

#[test]
fn session_profit_and_start() {
    let mut s = State::new();
    s.orders.push(executed(OrderSide::Buy, "s1", 100, 3, 100));
    s.orders.push(executed(OrderSide::Sell, "s1", 200, 3, 105));
    s.orders.push(executed(OrderSide::Buy, "s2", 50, 1, 10));
    assert_eq!(s.get_session_profit(&"s1".to_string()), n(15));
    assert_eq!(s.get_session_start(&"s1".to_string()), Some(100));
    assert_eq!(s.get_session_start(&"s3".to_string()), None);
}

#[test]
fn active_sessions_are_counted_once() {
    let mut s = State::new();
    s.orders.push(executed(OrderSide::Buy, "s1", 100, 1, 10));
    s.orders.push(executed(OrderSide::Sell, "s1", 200, 1, 10));
    s.orders.push(executed(OrderSide::Buy, "s2", 300, 1, 10));
    assert_eq!(s.get_active_sessions(&btc(), 400, 1_000), 2);
    // long after: only the open buy of s2 keeps its session active
    s.orders[0].next_order_id = Some("x".to_string());
    assert_eq!(s.get_active_sessions(&btc(), 1_000_000, 1_000), 1);
    assert_eq!(s.get_active_sessions(&Ticker::new("ETH", "USDT"), 400, 1_000), 0);
}

#[test]
fn total_scalped_counts_completed_round_trips() {
    let mut s = State::new();
    let buy = executed(OrderSide::Buy, "s1", 100, 3, 100);
    let mut sell = executed(OrderSide::Sell, "s1", 200, 3, 105);
    sell.buy_order_price = Some(buy.get_trade_total_price());
    s.orders.push(buy);
    s.orders.push(sell);
    // 315 * 0.999 - 300
    assert_eq!(s.get_total_scalped("BTC".to_string()), Dec::from_parts(14685, 3));
}

#[test]
fn find_by_filters_and_sorts_by_time() {
    let mut s = State::new();
    s.orders.push(executed(OrderSide::Buy, "s1", 300, 1, 10));
    s.orders.push(executed(OrderSide::Sell, "s1", 200, 1, 10));
    s.orders.push(executed(OrderSide::Buy, "s2", 100, 1, 10));
    let filters = OrderListFilters { side: Some(OrderSide::Buy), ..Default::default() };
    let asc = s.find_by(filters, OrderListSort { by: OrderListSortBy::Date, asc: true });
    assert_eq!(asc.iter().map(|o| o.creation_time).collect::<Vec<_>>(), vec![100, 300]);
    let filters = OrderListFilters { session: Some("s1".to_string()), ..Default::default() };
    let desc = s.find_by(filters, OrderListSort { by: OrderListSortBy::Date, asc: false });
    assert_eq!(desc.iter().map(|o| o.creation_time).collect::<Vec<_>>(), vec![300, 200]);
    assert_eq!(s.get_last_executed_order_time(OrderListFilters::default()), Some(300));
    let one = s.find_one(OrderListFilters::default(), OrderListSort { by: OrderListSortBy::Date, asc: true });
    assert_eq!(one.unwrap().creation_time, 100);
}

#[test]
fn portfolio_values_and_funds() {
    let mut p = Portfolio::new();
    p.update_asset(asset("BTC", 2, 1));
    p.update_asset_value("BTC", n(100));
    assert_eq!(p.assets[0].value, Some(n(300)));
    assert_eq!(p.value, Some(n(300)));
    assert!(p.check_funds("BTC", n(2)));
    assert!(!p.check_funds("BTC", n(3)));
    assert!(!p.check_funds("ETH", n(0)));
    assert!(p.reserve_funds("ETH", n(1)).is_err());
    p.update_asset_amount("ETH", n(4), n(10));
    assert_eq!(held(&p, "ETH"), (n(4), n(0)));
    p.drain_asset_locked("BTC", n(1), n(100));
    assert_eq!(held(&p, "BTC"), (n(2), n(0)));
    assert_eq!(p.value, Some(n(240)));
}

#[test]
fn order_parsing_is_case_insensitive() {
    assert_eq!(OrderSide::try_from("buy"), Ok(OrderSide::Buy));
    assert_eq!(OrderSide::try_from("SeLL"), Ok(OrderSide::Sell));
    assert!(OrderSide::try_from("hold").is_err());
    assert_eq!(OrderType::try_from("limit_maker"), Ok(OrderType::LimitMaker));
    assert!(OrderType::try_from("iceberg").is_err());
    assert_eq!(OrderStatus::try_from("PARTIALLY_FILLED"), Ok(OrderStatus::Active));
    assert_eq!(OrderStatus::try_from("EXPIRED_IN_MATCH"), Ok(OrderStatus::Expired));
    assert!(OrderStatus::try_from("filled").is_err());
}

#[test]
fn base_price_is_average_fill() {
    let mut o = executed(OrderSide::Buy, "s", 1, 4, 25);
    assert_eq!(o.get_order_base_price(), n(25));
    o.filled_amount = n(0);
    assert_eq!(o.get_order_base_price(), n(25));
}

#[test]
fn add_order_needs_the_asset_held() {
    let mut s = state_with(1000, 0);
    s.portfolio.assets.retain(|a| a.symbol != "BTC");
    let order = Order::new_sell(btc(), n(1), n(100), 10, None);
    assert!(s.add_order(order).is_err());
    assert!(s.orders.is_empty());
}

#[test]
fn update_applies_working_time_and_is_idempotent() {
    let mut s = state_with(1000, 0);
    let o = s.add_order(Order::new_buy(btc(), n(3), n(100), n(300), 10, None)).unwrap();
    s.update_order(update(&o.id, OrderStatus::Executed, Some(fill("t1", 3, 100))));
    let mut late = update(&o.id, OrderStatus::Active, None);
    late.working_time = Some(9);
    s.update_order(late);
    assert_eq!(s.orders[0].status, OrderStatus::Executed);
    assert_eq!(s.orders[0].working_time, Some(9));
    let twice = update(&o.id, OrderStatus::Executed, Some(fill("t1", 3, 100)));
    s.update_order(twice);
    let before = s.orders[0].trades.len();
    s.update_order(update(&o.id, OrderStatus::Executed, Some(fill("t1", 3, 100))));
    assert_eq!(s.orders[0].trades.len(), before);
    assert_eq!(before, 1);
}

#[test]
fn rejection_releases_the_reservation() {
    let mut s = state_with(1000, 5);
    let buy = s.add_order(Order::new_buy(btc(), n(3), n(100), n(300), 10, None)).unwrap();
    assert_eq!(held(&s.portfolio, "USDT"), (n(700), n(300)));
    s.reject_order(&buy.id);
    assert_eq!(s.orders[0].status, OrderStatus::Rejected);
    assert_eq!(held(&s.portfolio, "USDT"), (n(1000), n(0)));
    // a second rejection gives nothing back again
    s.reject_order(&buy.id);
    assert_eq!(held(&s.portfolio, "USDT"), (n(1000), n(0)));
    let sell = s.add_order(Order::new_sell(btc(), n(2), n(100), 20, None)).unwrap();
    s.reject_order(&sell.id);
    assert_eq!(held(&s.portfolio, "BTC"), (n(5), n(0)));
}

#[test]
fn add_order_keeps_predecessor_fields() {
    let mut s = state_with(1000, 5);
    let buy = s.add_order(Order::new_buy(btc(), n(1), n(100), n(100), 10, None)).unwrap();
    let before = s.orders[0].clone();
    let sell = s.add_order(Order::new_sell(btc(), n(1), n(110), 20, Some(&buy))).unwrap();
    assert_eq!(s.orders[0].next_order_id, Some(sell.id.clone()));
    assert_eq!(s.orders[0].amount, before.amount);
    assert_eq!(s.orders[0].status, before.status);
    assert_eq!(s.orders[0].session_id, before.session_id);
}
