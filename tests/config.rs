use crypto_feeder::config::{Config, EndpointConfig, SymbolConfig};
use crypto_feeder::data_parser::{DataParser, VenueParser};
use crypto_feeder::errors::{ConfigError, CryptoFeederError};
use crypto_feeder::session::session_websocket_url;
use crypto_feeder::udp_stats::{SendResult, UdpStats};

const SYMBOLS: &str = "# sessions\n[BinanceSpot]\nBTC^USDT\nETH^USDT, XRP^USDT ,\n\n[BinanceFutures]\nBTC^USDT, ETH^USDT\n";
const ENDPOINTS: &str = "[BinanceSpot]\nws_url_base = wss://stream.binance.com:9443/ws/\ntimeout_ms=5000\nping_interval_ms=30000\nenabled=true\n\n[OkxSpot]\nws_url_base=wss://ws.okx.com:8443/ws/v5/public\ntimeout_ms=abc\nenabled=false\n\n[Broken]\nenabled=true\n";

#[test]
fn primary_file_settings() {
    let text = "# comment\n; other\n[udp]\nmulticast_addr = 239.1.2.3\nport=19001\nport = 19002\nruntime_threads=0\nmetrics_enabled=TRUE\nmetrics_interval_secs=x\nlog_file_path = /tmp/f.log\n";
    let c = Config::load(Some(text), None, None);
    assert_eq!(c.udp.multicast_addr, "239.1.2.3");
    assert_eq!(c.udp.port, 19002);
    assert_eq!(c.udp.interface_addr, "0.0.0.0");
    assert_eq!(c.runtime_threads, None);
    assert!(c.metrics.enabled);
    assert_eq!(c.metrics.interval_secs, 5);
    assert_eq!(c.logging.level, "info");
    assert_eq!(c.logging.file_path.as_deref(), Some("/tmp/f.log"));
    assert!(c.symbol_config.is_none());
    assert!(c.endpoint_config.is_none());
    let d = Config::load(None, None, None);
    assert_eq!(d.udp.multicast_addr, "239.255.1.1");
    assert_eq!(d.udp.port, 55555);
    assert!(!d.metrics.enabled);
    assert_eq!(d.symbols, vec!["BTC^USDT".to_string()]);
    assert_eq!(d.get_btc_symbols(), vec!["BTC^USDT".to_string()]);
    assert!(d.get_non_btc_symbols().is_empty());
    let e = Config::load(Some("runtime_threads=4\nport=70000\nmetrics_enabled=1\n"), None, None);
    assert_eq!(e.runtime_threads, Some(4));
    assert_eq!(e.udp.port, 55555);
    assert!(e.metrics.enabled);
}

#[test]
fn ini_map_keeps_last_value() {
    let map = Config::parse_ini("a=1\nb = x = y\na=2\nnoequals\n[sec]\n");
    let get = |k: &str| map.iter().find(|(key, _)| key == k).map(|(_, v)| v.clone());
    assert_eq!(get("a"), Some("2".to_string()));
    assert_eq!(get("b"), Some("x = y".to_string()));
    assert_eq!(map.len(), 2);
}

#[test]
fn symbol_sessions_file() {
    let c = SymbolConfig::parse(SYMBOLS).unwrap();
    assert_eq!(c.get_exchange_names(), vec!["BinanceSpot".to_string(), "BinanceFutures".to_string()]);
    let spot = c.get_exchange_sessions("BinanceSpot").unwrap();
    assert_eq!(spot.len(), 2);
    assert_eq!(spot[0].symbols, vec!["BTC^USDT".to_string()]);
    assert!(spot[0].is_btc_session);
    assert_eq!(spot[1].symbols, vec!["ETH^USDT".to_string(), "XRP^USDT".to_string()]);
    assert!(!spot[1].is_btc_session);
    assert_eq!(c.get_btc_sessions("BinanceSpot").len(), 1);
    assert_eq!(c.get_non_btc_sessions("BinanceSpot").len(), 1);
    assert_eq!(c.get_btc_sessions("BinanceFutures").len(), 0);
    assert_eq!(c.get_all_symbols("BinanceSpot"), vec!["BTC^USDT", "ETH^USDT", "XRP^USDT"]);
    assert!(c.get_all_symbols("Nowhere").is_empty());
    assert!(c.get_exchange_sessions("Nowhere").is_none());
    match SymbolConfig::parse("[X]\n , ,\n") {
        Err(CryptoFeederError::ConfigError(ConfigError::EmptySymbolLine)) => {}
        _ => panic!("empty symbol line expected"),
    }
    let line = SymbolConfig::parse_symbol_line("BTC^USDT").unwrap();
    assert!(line.is_btc_session);
}

#[test]
fn endpoints_file() {
    let e = EndpointConfig::parse(ENDPOINTS);
    assert_eq!(e.get_all_exchange_names(), vec!["BinanceSpot".to_string(), "OkxSpot".to_string()]);
    assert_eq!(e.get_enabled_exchange_names(), vec!["BinanceSpot".to_string()]);
    let spot = e.get_exchange_endpoint("BinanceSpot").unwrap();
    assert_eq!(spot.ws_url_base, "wss://stream.binance.com:9443/ws/");
    assert_eq!(spot.timeout_ms, 5000);
    assert_eq!(spot.ping_interval_ms, Some(30000));
    assert!(spot.enabled);
    let okx = e.get_exchange_endpoint("OkxSpot").unwrap();
    assert_eq!(okx.timeout_ms, 5000);
    assert_eq!(okx.ping_interval_ms, None);
    assert!(!okx.enabled);
    assert!(e.get_exchange_endpoint("Broken").is_none());
}

#[test]
fn session_url_from_configuration() {
    let e = EndpointConfig::parse(ENDPOINTS);
    let syms = vec!["BTC^USDT".to_string()];
    assert_eq!(
        session_websocket_url(Some(&e), "BinanceSpot", &syms).unwrap(),
        "wss://stream.binance.com:9443/stream?streams=btcusdt@trade/btcusdt@depth"
    );
    assert_eq!(session_websocket_url(Some(&e), "OkxSpot", &syms), Err(CryptoFeederError::ExchangeDisabled));
    assert_eq!(
        session_websocket_url(None, "BinanceSpot", &syms).unwrap(),
        "wss://stream.binance.com:9443/stream?streams=btcusdt@trade/btcusdt@depth"
    );
}

#[test]
fn parsers_from_configuration() {
    let c = Config::load(None, Some(SYMBOLS), Some(ENDPOINTS));
    let p = DataParser::new_with_config(Some(&c));
    assert_eq!(p.parser_of("BinanceSpot"), Some(VenueParser::Binance));
    assert_eq!(p.parser_of("BinanceFutures"), Some(VenueParser::Binance));
    assert_eq!(p.parser_of("binance"), Some(VenueParser::Binance));
    assert_eq!(p.parser_of("OkxSpot"), None);
    let q = DataParser::new_with_config(Some(&Config::load(None, Some("[Upbit]\nKRW-BTC\n"), None)));
    assert_eq!(q.parser_of("Upbit"), Some(VenueParser::Default));
}

#[test]
fn send_accounting() {
    let mut s = UdpStats::new();
    assert!(s.record(SendResult::Sent(100)));
    assert!(s.record(SendResult::WouldBlock));
    assert!(!s.record(SendResult::Failed));
    assert!(s.record(SendResult::Sent(50)));
    assert_eq!(s.packets_sent, 2);
    assert_eq!(s.bytes_sent, 150);
    s.reset();
    assert_eq!(s, UdpStats::new());
}

#[test]
fn lines_split_like_std() {
    for text in ["", "\n", "\n\n", "a", "a\n", "a\r\nb\n", "a\r", "x\r\r\ny", "a\n\nb\r\n\r\n", "é\nü\r\n"] {
        let ours = crypto_feeder::text::split_lines(text);
        let std_lines: Vec<String> = text.lines().map(|l| l.to_string()).collect();
        assert_eq!(ours, std_lines, "text {:?}", text);
    }
    assert_eq!(crypto_feeder::text::split_commas("a,,b"), vec!["a", "", "b"]);
}
