use crypto_feeder::data_parser::{DataParser, ParsedData, VenueParser};
use crypto_feeder::errors::{CryptoFeederError, ParseError};

fn spot_trade_frame() -> &'static str {
    r#"{"stream":"btcusdt@trade","data":{"e":"trade","E":1700000000000,"s":"BTCUSDT","t":1,"p":"50000.00","q":"0.10000000","T":1700000000000,"m":false}}"#
}

fn parser_for(venue: &str) -> DataParser {
    let mut p = DataParser::new();
    p.register(venue.to_string(), VenueParser::Binance);
    p
}

#[test]
fn test_binance_symbol_normalization() {
    assert_eq!(DataParser::normalize_binance_symbol("BTCUSDT"), "BTC^USDT");
    assert_eq!(DataParser::normalize_binance_symbol("ETHUSDT"), "ETH^USDT");
    assert_eq!(DataParser::normalize_binance_symbol("ADABTC"), "ADA^BTC");
}

#[test]
fn test_exchange_normalization() {
    assert_eq!(DataParser::normalize_exchange_name("binance", "spot"), "BinanceSpot");
    assert_eq!(DataParser::normalize_exchange_name("binance", "futures"), "BinanceFutures");
    assert_eq!(DataParser::normalize_exchange_name("bybit", "linear"), "BybitLinear");
    assert_eq!(DataParser::normalize_exchange_name("okx", "swap"), "OkxSwap");
}

#[test]
fn test_parser_creation() {
    let parser = DataParser::new();
    assert!(parser.parser_of("binance").is_some());
}

#[test]
fn test_parse_binance_combined_trade() {
    let json = r#"{
        "stream":"btcusdt@trade",
        "data":{
            "e":"trade","E":1700000000000,"s":"BTCUSDT","t":1,
            "p":"50000.00","q":"0.10000000","T":1700000000000,
            "m":false
        }
    }"#;
    let bytes = json.as_bytes().to_vec();
    let res = DataParser::parse_binance_message(&bytes);
    match res {
        Ok(ParsedData::Trade(t)) => {
            assert_eq!(t.symbol, "BTC^USDT");
            assert_eq!(t.exchange, "BinanceSpot");
            assert!(t.is_buyer_taker);
            assert_eq!(t.price as f64 / 1e8, 50000.0);
        }
        _ => panic!("unexpected parse result"),
    }
}

#[test]
fn test_parse_binance_combined_depth() {
    let json = r#"{
        "stream":"ethusdt@depth",
        "data":{
            "e":"depthUpdate","E":1700000001000,"s":"ETHUSDT",
            "U":100,"u":110,
            "b":[["3000.10","1.00000000"]],
            "a":[["3001.20","2.00000000"]]
        }
    }"#;
    let bytes = json.as_bytes().to_vec();
    let res = DataParser::parse_binance_message(&bytes);
    match res {
        Ok(ParsedData::OrderBook(ob)) => {
            assert_eq!(ob.symbol, "ETH^USDT");
            assert_eq!(ob.exchange, "BinanceSpot");
            assert_eq!(ob.bids.len(), 1);
            assert_eq!(ob.asks.len(), 1);
        }
        _ => panic!("unexpected parse result"),
    }
}

#[test]
fn spot_trade_fields() {
    let p = parser_for("BinanceSpot");
    match p.parse_message("BinanceSpot", spot_trade_frame().as_bytes().to_vec()) {
        Ok(ParsedData::Trade(t)) => {
            assert_eq!(t.symbol, "BTC^USDT");
            assert_eq!(t.exchange, "BinanceSpot");
            assert_eq!(t.price, 5_000_000_000_000);
            assert_eq!(t.quantity, 10_000_000);
            assert!(t.is_buyer_taker);
            assert_eq!(t.timestamp, 1_700_000_000_000_000_000);
        }
        _ => panic!("unexpected parse result"),
    }
}

#[test]
fn venue_tag_follows_session() {
    let p = parser_for("BinanceFutures");
    match p.parse_message("BinanceFutures", spot_trade_frame().as_bytes().to_vec()) {
        Ok(ParsedData::Trade(t)) => assert_eq!(t.exchange, "BinanceFutures"),
        _ => panic!("unexpected parse result"),
    }
    let agg = r#"{"e":"aggTrade","E":1,"s":"ethusdt","a":5,"p":"10","q":"2","T":3,"m":true}"#;
    match p.parse_message("BinanceFutures", agg.as_bytes().to_vec()) {
        Ok(ParsedData::TradeBatch(b)) => {
            assert_eq!(b.exchange, "BinanceFutures");
            assert_eq!(b.symbol, "ETH^USDT");
            assert_eq!(b.exchange_timestamp, 3_000_000);
            assert_eq!(b.trades.len(), 1);
            assert_eq!(b.trades[0].exchange, "BinanceFutures");
            assert!(!b.trades[0].is_buyer_taker);
        }
        _ => panic!("unexpected parse result"),
    }
    let q = parser_for("MyVenue");
    match q.parse_message("MyVenue", spot_trade_frame().as_bytes().to_vec()) {
        Ok(ParsedData::Trade(t)) => assert_eq!(t.exchange, "MyVenue"),
        _ => panic!("unexpected parse result"),
    }
}

#[test]
fn mark_price_event_gives_three_values() {
    let frame = r#"{"stream":"btcusdt@markPrice@1s","data":{"e":"markPriceUpdate","E":1700000000000,"s":"BTCUSDT","p":"50000.0","i":"50001.0","r":"0.0001"}}"#;
    let p = parser_for("BinanceFutures");
    match p.parse_message("BinanceFutures", frame.as_bytes().to_vec()) {
        Ok(ParsedData::Multi(items)) => {
            assert_eq!(items.len(), 3);
            match &items[0] {
                ParsedData::IndexPrice { symbol, exchange, value, timestamp } => {
                    assert_eq!(symbol, "BTC^USDT");
                    assert_eq!(exchange, "BinanceFutures");
                    assert_eq!(*value, 5_000_100_000_000);
                    assert_eq!(*timestamp, 1_700_000_000_000_000_000);
                }
                _ => panic!("index price expected"),
            }
            match &items[1] {
                ParsedData::MarkPrice { value, .. } => assert_eq!(*value, 5_000_000_000_000),
                _ => panic!("mark price expected"),
            }
            match &items[2] {
                ParsedData::FundingRate { value, .. } => assert_eq!(*value, 10_000),
                _ => panic!("funding rate expected"),
            }
        }
        _ => panic!("unexpected parse result"),
    }
}

#[test]
fn liquidation_event() {
    let frame = r#"{"stream":"btcusdt@forceOrder","data":{"e":"forceOrder","E":1700000000000,"o":{"s":"BTCUSDT","S":"SELL","ap":"49000.0","q":"0.5"}}}"#;
    match DataParser::parse_binance_message(frame.as_bytes()) {
        Ok(ParsedData::Liquidation { symbol, price, quantity, is_sell, timestamp, .. }) => {
            assert_eq!(symbol, "BTC^USDT");
            assert_eq!(price, 4_900_000_000_000);
            assert_eq!(quantity, 50_000_000);
            assert!(is_sell);
            assert_eq!(timestamp, 1_700_000_000_000_000_000);
        }
        _ => panic!("unexpected parse result"),
    }
    let buy = r#"{"e":"forceOrder","o":{"s":"ETHBTC","S":"buy","p":"0.05"}}"#;
    match DataParser::parse_binance_message(buy.as_bytes()) {
        Ok(ParsedData::Liquidation { symbol, price, quantity, is_sell, timestamp, .. }) => {
            assert_eq!(symbol, "ETH^BTC");
            assert_eq!(price, 5_000_000);
            assert_eq!(quantity, 0);
            assert!(!is_sell);
            assert_eq!(timestamp, 0);
        }
        _ => panic!("unexpected parse result"),
    }
}

#[test]
fn parse_errors() {
    let err = |s: &str| match DataParser::parse_binance_message(s.as_bytes()) {
        Err(CryptoFeederError::JsonParseError(e)) => e,
        _ => panic!("error expected"),
    };
    assert_eq!(err("not json"), ParseError::InvalidJson);
    assert_eq!(err(r#"{"data":{"x":1}}"#), ParseError::MissingEventType);
    assert_eq!(err(r#"{"e":"kline"}"#), ParseError::UnsupportedEvent);
    assert_eq!(err(r#"{"e":"trade","E":1,"s":"BTCUSDT","t":1,"p":"abc","q":"1","T":1,"m":false}"#), ParseError::MalformedEvent);
    assert_eq!(err(r#"{"e":"depthUpdate","E":1,"s":"BTCUSDT","U":1,"u":2,"b":[["1"]],"a":[]}"#), ParseError::MalformedEvent);
    assert_eq!(err(r#"{"e":"markPriceUpdate","s":"BTCUSDT","p":"1","i":"1"}"#), ParseError::MalformedEvent);
    assert_eq!(err(r#"{"e":"forceOrder","E":1}"#), ParseError::MalformedEvent);
    let p = DataParser::new();
    match p.parse_message("Nowhere", spot_trade_frame().as_bytes().to_vec()) {
        Err(CryptoFeederError::JsonParseError(ParseError::UnsupportedExchange)) => {}
        _ => panic!("unsupported exchange expected"),
    }
}

#[test]
fn symbol_normalization_cases() {
    assert_eq!(DataParser::normalize_binance_symbol("btcusdc"), "BTC^USDC");
    assert_eq!(DataParser::normalize_binance_symbol("ethbusd"), "ETH^BUSD");
    assert_eq!(DataParser::normalize_binance_symbol("SOLETH"), "SOL^ETH");
    assert_eq!(DataParser::normalize_binance_symbol("CAKEBNB"), "CAKE^BNB");
    assert_eq!(DataParser::normalize_binance_symbol("xyz"), "xyz");
    // unchanged symbols stay unchanged when normalized again
    let once = DataParser::normalize_binance_symbol("xyz");
    assert_eq!(DataParser::normalize_binance_symbol(&once), once);
    assert_eq!(DataParser::normalize_exchange_name("Foo", "perp"), "Foo_perp");
    assert_eq!(DataParser::normalize_exchange_name("BINANCE", "other"), "BinanceSpot");
}

#[test]
fn default_parser_gives_placeholder() {
    let mut p = DataParser::new();
    p.register("Upbit".to_string(), VenueParser::Default);
    match p.parse_message("Upbit", b"{}".to_vec()) {
        Ok(ParsedData::Trade(t)) => {
            assert_eq!(t.symbol, "UNKNOWN^USDT");
            assert_eq!(t.exchange, "Upbit");
            assert_eq!(t.price, 0);
        }
        _ => panic!("placeholder expected"),
    }
}
