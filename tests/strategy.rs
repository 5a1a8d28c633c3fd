use scalper::dec::Dec;
use scalper::market::{MarketplaceBook, MarketplaceCandle, MarketplaceTrade};
use scalper::order::{Order, OrderSide, OrderStatus, OrderTrade};
use scalper::portfolio::Asset;
use scalper::state::State;
use scalper::strategy::{
    adjust_order_price_and_amount, classify_trend, LotRules, PriceTrend, ScalpingParams,
    ScalpingStrategy, StrategyAction,
};
use scalper::ticker::Ticker;

fn n(v: i64) -> Dec {
    Dec::from_int(v)
}

fn d(m: i128, scale: u32) -> Dec {
    Dec::from_parts(m, scale)
}

fn btc() -> Ticker {
    Ticker::new("BTC", "USDT")
}

fn params(target: Dec) -> ScalpingParams {
    ScalpingParams {
        target_profit: target,
        quote_amount: n(300),
        entry_delay: 1_000,
        reentry_delay: 60_000,
        session_count: 2,
        session_profit_lifetime: 3_600_000,
    }
}

fn loose_rules() -> LotRules {
    LotRules { step_size: d(1, 5), min_qty: d(1, 5), max_qty: n(9000), min_notional: n(5) }
}

fn state_with(usdt: i64, btc_amount: i64) -> State {
    let mut s = State::new();
    s.portfolio.update_asset(Asset { symbol: "USDT".to_string(), amount: n(usdt), locked: n(0), value: None });
    s.portfolio.update_asset(Asset { symbol: "BTC".to_string(), amount: n(btc_amount), locked: n(0), value: None });
    s
}

fn executed_buy(created: u64) -> Order {
    let mut o = Order::new_buy(btc(), n(3), n(100), n(300), created, None);
    o.status = OrderStatus::Executed;
    o.working_time = Some(created);
    o.filled_amount = n(3);
    o.cumulative_quote_amount = n(300);
    o.trades.push(OrderTrade { id: "t1".to_string(), trade_time: created, amount: n(3), price: n(100) });
    o
}

fn reason(a: &StrategyAction) -> Option<String> {
    match a {
        StrategyAction::Ignore { reason, .. } => Some(reason.clone()),
        _ => None,
    }
}

fn details(a: &StrategyAction) -> Vec<Dec> {
    match a {
        StrategyAction::Ignore { details, .. } => details.clone(),
        _ => panic!("not an ignore"),
    }
}

fn placed(a: &StrategyAction) -> Option<&Order> {
    match a {
        StrategyAction::PlaceOrder { order } => Some(order),
        _ => None,
    }
}

#[test]
fn entry_buy_is_sized_from_quote_amount() {
    let s = ScalpingStrategy::new(btc(), params(n(1)));
    let state = state_with(1000, 0);
    let actions = s.process_entry(&state, &loose_rules(), n(100), 10_000);
    assert_eq!(actions.len(), 1);
    let order = placed(&actions[0]).unwrap();
    assert_eq!(order.amount, n(3));
    assert_eq!(order.quote_amount, n(300));
    assert_eq!(order.side, OrderSide::Buy);
    assert_eq!(order.status, OrderStatus::Draft);
    assert!(order.session_id.is_some());
}

#[test]
fn entry_without_funds_is_ignored() {
    let s = ScalpingStrategy::new(btc(), params(n(1)));
    let state = state_with(100, 0);
    let actions = s.process_entry(&state, &loose_rules(), n(100), 10_000);
    assert_eq!(actions.len(), 1);
    assert_eq!(reason(&actions[0]).as_deref(), Some("Entry no funds"));
    assert_eq!(details(&actions[0]), vec![n(100), n(300)]);
}

#[test]
fn entry_waits_for_pending_buy() {
    let s = ScalpingStrategy::new(btc(), params(n(1)));
    let mut state = state_with(1000, 0);
    state.orders.push(Order::new_buy(btc(), n(1), n(1), n(1), 0, None));
    assert!(s.process_entry(&state, &loose_rules(), n(100), 10_000).is_empty());
}

#[test]
fn entry_stops_at_session_cap() {
    let mut p = params(n(1));
    p.session_count = 1;
    let s = ScalpingStrategy::new(btc(), p);
    let mut state = state_with(1000, 0);
    state.orders.push(executed_buy(0));
    let actions = s.process_entry(&state, &loose_rules(), n(100), 10_000);
    assert_eq!(reason(&actions[0]).as_deref(), Some("Entry max sessions"));
}

#[test]
fn entry_holds_on_falling_trend() {
    let mut s = ScalpingStrategy::new(btc(), params(n(1)));
    s.price_stats.long_trend = Some(PriceTrend::Down);
    s.price_stats.long_support = Some(n(120));
    let state = state_with(1000, 0);
    let actions = s.process_entry(&state, &loose_rules(), n(100), 10_000);
    assert_eq!(actions.len(), 2);
    assert_eq!(reason(&actions[0]).as_deref(), Some("Entry price down"));
    assert_eq!(reason(&actions[1]).as_deref(), Some("Entry price < support"));
}

#[test]
fn sell_takes_profit_net_of_fee() {
    // 3 * 105 * 0.999 - 300 = 14.685
    let state = state_with(0, 3);
    let mut state = state;
    state.orders.push(executed_buy(0));
    let s = ScalpingStrategy::new(btc(), params(d(14685, 3)));
    let actions = s.process_sell(&state, d(1, 3), n(105), 5_000);
    assert_eq!(actions.len(), 1);
    let order = placed(&actions[0]).unwrap();
    assert_eq!(order.amount, n(3));
    assert_eq!(order.side, OrderSide::Sell);
    assert_eq!(order.prev_order_id, Some(state.orders[0].id.clone()));
    assert_eq!(order.session_id, state.orders[0].session_id);
}

#[test]
fn sell_below_target_is_no_profit() {
    let mut state = state_with(0, 3);
    state.orders.push(executed_buy(0));
    let s = ScalpingStrategy::new(btc(), params(d(14686, 3)));
    let actions = s.process_sell(&state, d(1, 3), n(105), 5_000);
    assert_eq!(actions.len(), 1);
    assert_eq!(reason(&actions[0]).as_deref(), Some("No profit"));
    assert_eq!(details(&actions[0]), vec![d(14685, 3)]);
}

#[test]
fn sell_holds_in_bull_run_and_needs_funds() {
    let mut state = state_with(0, 3);
    state.orders.push(executed_buy(0));
    let mut s = ScalpingStrategy::new(btc(), params(n(1)));
    s.price_stats.short_trend = Some(PriceTrend::Bull);
    let actions = s.process_sell(&state, d(1, 3), n(105), 5_000);
    assert_eq!(reason(&actions[0]).as_deref(), Some("Hold bull"));
    let mut poor = state_with(0, 1);
    poor.orders.push(executed_buy(0));
    let actions = s.process_sell(&poor, d(1, 3), n(105), 5_000);
    assert_eq!(reason(&actions[0]).as_deref(), Some("Sell no funds"));
    assert_eq!(details(&actions[0]), vec![n(1), n(3)]);
}

fn executed_sell_after(buy: &Order, created: u64) -> Order {
    let mut o = Order::new_sell(btc(), n(3), n(105), created, Some(buy));
    o.status = OrderStatus::Executed;
    o.working_time = Some(created);
    o.filled_amount = n(3);
    o.trades.push(OrderTrade { id: "t2".to_string(), trade_time: created, amount: n(3), price: n(105) });
    o
}

#[test]
fn reentry_waits_out_the_delay() {
    let mut state = state_with(1000, 0);
    let mut buy = executed_buy(0);
    let sell = executed_sell_after(&buy, 1_000);
    buy.next_order_id = Some(sell.id.clone());
    state.orders.push(buy);
    state.orders.push(sell);
    let s = ScalpingStrategy::new(btc(), params(n(1)));
    let actions = s.process_reentry(&state, &loose_rules(), n(90), 30_000);
    assert_eq!(actions.len(), 1);
    assert_eq!(reason(&actions[0]).as_deref(), Some("Reentry delay"));
}

#[test]
fn reentry_after_delay_buys_again_in_session() {
    let mut state = state_with(1000, 0);
    let mut buy = executed_buy(0);
    let mut sell = executed_sell_after(&buy, 1_000);
    sell.trades.clear();
    sell.status = OrderStatus::Executed;
    buy.next_order_id = Some(sell.id.clone());
    state.orders.push(buy);
    state.orders.push(sell);
    let s = ScalpingStrategy::new(btc(), params(n(1)));
    let actions = s.process_reentry(&state, &loose_rules(), n(100), 100_000);
    assert_eq!(actions.len(), 1);
    let order = placed(&actions[0]).unwrap();
    assert_eq!(order.amount, n(3));
    assert_eq!(order.prev_order_id, Some(state.orders[1].id.clone()));
    assert_eq!(order.session_id, state.orders[0].session_id);
}

#[test]
fn profitable_old_session_terminates() {
    let mut state = state_with(1000, 0);
    let mut buy = executed_buy(0);
    let sell = executed_sell_after(&buy, 1_000);
    buy.next_order_id = Some(sell.id.clone());
    state.orders.push(buy);
    state.orders.push(sell);
    let s = ScalpingStrategy::new(btc(), params(n(1)));
    let actions = s.process_reentry(&state, &loose_rules(), n(100), 4_000_000);
    assert_eq!(actions.len(), 1);
    assert_eq!(reason(&actions[0]).as_deref(), Some("Terminating session"));
    assert_eq!(details(&actions[0]), vec![n(15)]);
}

#[test]
fn reentry_under_resistance_is_ignored() {
    let mut state = state_with(1000, 0);
    let mut buy = executed_buy(0);
    let mut sell = executed_sell_after(&buy, 1_000);
    sell.trades.clear();
    buy.next_order_id = Some(sell.id.clone());
    state.orders.push(buy);
    state.orders.push(sell);
    let mut s = ScalpingStrategy::new(btc(), params(n(1)));
    s.price_stats.short_resistance = Some(n(110));
    s.price_stats.long_resistance = Some(n(120));
    let actions = s.process_reentry(&state, &loose_rules(), n(100), 100_000);
    assert_eq!(actions.len(), 2);
    assert_eq!(reason(&actions[0]).as_deref(), Some("Reentry short resistance > price"));
    assert_eq!(reason(&actions[1]).as_deref(), Some("Reentry long resistance > price"));
}

#[test]
fn lot_rules_round_and_bound_amounts() {
    let rules = LotRules { step_size: d(1, 2), min_qty: d(1, 1), max_qty: n(5), min_notional: n(10) };
    let mut o = Order::new_buy(btc(), d(2_001, 3), n(100), n(0), 0, None);
    assert!(adjust_order_price_and_amount(&mut o, &rules).is_ok());
    assert_eq!(o.amount, d(201, 2));
    assert_eq!(o.quote_amount, n(201));
    // too small a notional: raised to 10 / 100 = 0.1
    let mut o = Order::new_buy(btc(), d(1, 3), n(100), n(0), 0, None);
    assert!(adjust_order_price_and_amount(&mut o, &rules).is_ok());
    assert_eq!(o.amount, d(1, 1));
    // nothing fits: the minimum notional needs more than the maximum quantity
    let tight = LotRules { step_size: d(1, 2), min_qty: d(1, 1), max_qty: n(1), min_notional: n(1000) };
    let mut o = Order::new_buy(btc(), n(1), n(100), n(0), 0, None);
    assert!(adjust_order_price_and_amount(&mut o, &tight).is_err());
    assert_eq!(o.amount, n(1));
}

#[test]
fn trends_by_one_percent() {
    assert_eq!(classify_trend(n(102), n(100)), Some(PriceTrend::Bull));
    assert_eq!(classify_trend(d(1005, 1), n(100)), Some(PriceTrend::Up));
    assert_eq!(classify_trend(n(98), n(100)), Some(PriceTrend::Crash));
    assert_eq!(classify_trend(d(995, 1), n(100)), Some(PriceTrend::Down));
    assert_eq!(classify_trend(n(100), n(100)), None);
}

fn candle(start: u64, close: i64) -> MarketplaceCandle {
    MarketplaceCandle {
        ticker: btc(),
        open_price: n(close),
        close_price: n(close),
        high_price: n(close + 1),
        low_price: n(close - 1),
        trade_count: 1,
        start_time: start,
        close_time: start + 59_999,
        volume: n(1),
        closed: true,
    }
}

#[test]
fn candle_history_replaces_same_interval() {
    let mut s = ScalpingStrategy::new(btc(), params(n(1)));
    assert!(!s.add_candle_event_history(candle(0, 10)));
    assert!(!s.add_candle_event_history(candle(0, 11)));
    assert_eq!(s.candle_event_history.len(), 1);
    assert_eq!(s.candle_event_history[0].close_price, n(11));
    assert!(s.add_candle_event_history(candle(60_000, 12)));
    assert_eq!(s.candle_event_history.len(), 2);
    assert_eq!(s.candle_event_history[0].close_price, n(12));
}

#[test]
fn stats_refresh_with_long_history() {
    let mut s = ScalpingStrategy::new(btc(), params(n(1)));
    let candles: Vec<MarketplaceCandle> = (0..130).map(|i| candle(i * 60_000, 100)).collect();
    s.init(candles);
    assert!(s.initialized);
    assert_eq!(s.candle_event_history[0].start_time, 129 * 60_000);
    assert!(s.add_candle_event_history(candle(130 * 60_000, 100)));
    // a flat market: no trend either way
    assert_eq!(s.price_stats.short_trend, None);
    assert_eq!(s.price_stats.long_trend, None);
    assert!(s.update_stats(n(100), n(100)).is_some());
    let short = ScalpingStrategy::new(btc(), params(n(1)));
    assert!(short.update_stats(n(100), n(100)).is_none());
}

#[test]
fn test_dequeue() {
    let mut s = ScalpingStrategy::new(btc(), params(n(1)));
    for id in 1..=3u64 {
        s.add_trade_event_history(MarketplaceTrade { trade_id: id, trade_time: id, ticker: btc(), price: n(1), quantity: n(1) });
    }
    let ids: Vec<u64> = s.trade_event_history.iter().map(|t| t.trade_id).collect();
    assert_eq!(ids, vec![3, 2, 1]);
}

fn book(bid: i64, ask: i64) -> MarketplaceBook {
    MarketplaceBook { ticker: btc(), first_update_id: 1, final_update_id: 2, time: 100_000, asks: vec![(n(ask), n(10))], bids: vec![(n(bid), n(10))] }
}

#[test]
fn depth_event_runs_stages_when_idle() {
    let s = ScalpingStrategy::new(btc(), params(n(1)));
    let state = state_with(1000, 0);
    let actions = s.on_depth_event(&state, &book(100, 101), d(1, 3), &loose_rules()).unwrap();
    assert_eq!(actions.len(), 1);
    assert_eq!(placed(&actions[0]).unwrap().amount, n(3));
    let mut busy = state_with(1000, 0);
    let mut o = Order::new_buy(btc(), n(1), n(1), n(1), 0, None);
    o.status = OrderStatus::Active;
    busy.orders.push(o);
    assert!(s.on_depth_event(&busy, &book(100, 101), d(1, 3), &loose_rules()).unwrap().is_empty());
    let mut empty = book(100, 101);
    empty.bids.clear();
    assert!(s.on_depth_event(&state, &empty, d(1, 3), &loose_rules()).is_err());
    let other = MarketplaceBook { ticker: Ticker::new("ETH", "USDT"), ..book(1, 2) };
    assert!(s.on_depth_event(&state, &other, d(1, 3), &loose_rules()).unwrap().is_empty());
}

#[test]
fn lot_rules_reach_minimum_notional() {
    // 5 / 3 rounded up to ten places: the notional reaches 5
    let step = Dec::from_units(1);
    let rules = LotRules { step_size: step, min_qty: step, max_qty: n(1000), min_notional: n(5) };
    let mut o = Order::new_buy(btc(), step, n(3), n(0), 0, None);
    assert!(adjust_order_price_and_amount(&mut o, &rules).is_ok());
    assert_eq!(o.amount, Dec::from_units(16_666_666_667));
    assert!(o.amount.mul(n(3)).ge(&n(5)));
    let bad_step = LotRules { step_size: n(0), ..rules };
    let mut o = Order::new_buy(btc(), n(1), n(3), n(0), 0, None);
    assert!(adjust_order_price_and_amount(&mut o, &bad_step).is_err());
}
