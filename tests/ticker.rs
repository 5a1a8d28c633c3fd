use scalper::market::extract_ticker_from_stream;
use scalper::ticker::Ticker;

#[test]
fn test_from_str() {
    let ticker = Ticker::try_from("BTCUSDT");
    assert!(ticker.is_ok());
    let ticker = ticker.unwrap();
    assert_eq!(ticker.base, String::from("BTC"));
    assert_eq!(ticker.quote, String::from("USDT"));
}

#[test]
fn ticker_of_six_characters() {
    let t = Ticker::try_from("ETHBTC").unwrap();
    assert_eq!(t, Ticker::new("ETH", "BTC"));
    assert_eq!(t.to_string(), "ETHBTC");
}

#[test]
fn ticker_of_other_length_is_refused() {
    assert!(Ticker::try_from("BTCUSDTX").is_err());
    assert!(Ticker::try_from("BTC").is_err());
}

#[test]
fn stream_name_gives_ticker() {
    let t = extract_ticker_from_stream("btcusdt@depth20").unwrap();
    assert_eq!(t, Ticker::new("btc", "usdt"));
    assert!(extract_ticker_from_stream("bt@depth").is_none());
    assert_eq!(extract_ticker_from_stream("ethbtc"), Some(Ticker::new("eth", "btc")));
}
