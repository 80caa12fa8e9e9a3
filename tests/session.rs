use crypto_feeder::config::ExchangeEndpoint;
use crypto_feeder::session::{
    build_binance_websocket_url_from_endpoint, build_default_websocket_url, build_websocket_url_from_endpoint,
    calculate_backoff_delay, frame_action, infer_exchange_id_from_display, next_step, FrameAction, FrameKind,
    SessionAction, SessionEvent, SessionState,
};
use std::time::Duration;

#[test]
fn test_backoff_delay_calculation() {
    assert_eq!(Duration::from_millis(calculate_backoff_delay(0)), Duration::from_secs(1));
    assert_eq!(Duration::from_millis(calculate_backoff_delay(1)), Duration::from_secs(2));
    assert_eq!(Duration::from_millis(calculate_backoff_delay(2)), Duration::from_secs(4));
    assert_eq!(Duration::from_millis(calculate_backoff_delay(3)), Duration::from_secs(8));
    assert_eq!(Duration::from_millis(calculate_backoff_delay(10)), Duration::from_secs(60));
}

fn endpoint(name: &str, base: &str) -> ExchangeEndpoint {
    ExchangeEndpoint {
        exchange_name: name.to_string(),
        ws_url_base: base.to_string(),
        timeout_ms: 5000,
        ping_interval_ms: Some(30000),
        enabled: true,
    }
}

#[test]
fn test_binance_combined_stream_url_spot() {
    let ep = endpoint("BinanceSpot", "wss://stream.binance.com:9443/ws/");
    let url = build_binance_websocket_url_from_endpoint(&ep, &vec!["BTC^USDT".into(), "ETH^USDT".into()]);
    assert!(url.contains("wss://stream.binance.com:9443/stream?streams="));
    assert!(url.contains("btcusdt@trade/btcusdt@depth/ethusdt@trade/ethusdt@depth"));
}

#[test]
fn test_binance_combined_stream_url_futures() {
    let ep = endpoint("BinanceFutures", "wss://fstream.binance.com/ws/");
    let url = build_binance_websocket_url_from_endpoint(&ep, &vec!["BTC^USDT".into(), "ETH^USDT".into()]);
    assert!(url.contains("wss://fstream.binance.com/stream?streams="));
    assert!(url.contains("btcusdt@aggTrade/btcusdt@depth/ethusdt@aggTrade/ethusdt@depth"));
}

#[test]
fn url_base_rewrites() {
    let syms = vec!["BTC^USDT".to_string()];
    let u = |b: &str| build_binance_websocket_url_from_endpoint(&endpoint("BinanceSpot", b), &syms);
    assert_eq!(u("wss://h/ws"), "wss://h/stream?streams=btcusdt@trade/btcusdt@depth");
    assert_eq!(u("wss://h/ws/"), "wss://h/stream?streams=btcusdt@trade/btcusdt@depth");
    assert_eq!(u("wss://h/stream"), "wss://h/stream/?streams=btcusdt@trade/btcusdt@depth");
    assert_eq!(u("wss://h/stream/"), "wss://h/stream/?streams=btcusdt@trade/btcusdt@depth");
    assert_eq!(u("wss://h"), "wss://h/stream?streams=btcusdt@trade/btcusdt@depth");
    assert_eq!(u("wss://h/"), "wss://h/stream?streams=btcusdt@trade/btcusdt@depth");
    let okx = build_websocket_url_from_endpoint(&endpoint("OkxSpot", "wss://okx/ws/v5/public"), &syms);
    assert_eq!(okx, "wss://okx/ws/v5/public");
    assert_eq!(
        build_default_websocket_url("BinanceFutures", &syms),
        "wss://fstream.binance.com/stream?streams=btcusdt@aggTrade/btcusdt@depth"
    );
    assert_eq!(build_default_websocket_url("Other", &syms), "wss://stream.binance.com:9443/ws/btcusdt@trade");
}

#[test]
fn backoff_schedule_in_seconds() {
    let secs: Vec<u64> = (0..=10).map(|k| calculate_backoff_delay(k) / 1000).collect();
    assert_eq!(secs, vec![1, 2, 4, 8, 16, 32, 60, 60, 60, 60, 60]);
    assert_eq!(calculate_backoff_delay(u32::MAX), 60000);
}

#[test]
fn reconnect_emits_events() {
    let mut s = SessionState::new();
    let mut seen = Vec::new();
    let events = [
        SessionEvent::Start,
        SessionEvent::HandshakeFailed,
        SessionEvent::BackoffElapsed,
        SessionEvent::HandshakeFailed,
        SessionEvent::BackoffElapsed,
        SessionEvent::HandshakeFailed,
        SessionEvent::BackoffElapsed,
        SessionEvent::HandshakeOk,
    ];
    let mut sleeps = Vec::new();
    for e in events {
        let step = next_step(s, e);
        if let Some(c) = step.transition {
            seen.push((c.previous, c.current));
        }
        if let SessionAction::Sleep(ms) = step.action {
            sleeps.push(ms);
        }
        s = step.state;
    }
    assert_eq!(seen, vec![(0, 1), (1, 3), (3, 1), (1, 3), (3, 1), (1, 3), (3, 1), (1, 2)]);
    assert_eq!(sleeps, vec![1000, 2000, 4000]);
    assert_eq!(s.retry_count, 0);
}

#[test]
fn session_fails_after_ten_attempts() {
    let mut s = next_step(SessionState::new(), SessionEvent::Start).state;
    let mut last = None;
    for _ in 0..10 {
        let step = next_step(s, SessionEvent::HandshakeFailed);
        last = Some(step);
        s = step.state;
        if step.action == SessionAction::Stop {
            break;
        }
        s = next_step(s, SessionEvent::BackoffElapsed).state;
    }
    let step = last.unwrap();
    assert_eq!(step.action, SessionAction::Stop);
    assert_eq!(step.transition.map(|c| (c.previous, c.current)), Some((1, 4)));
    assert_eq!(s.status, 4);
    assert_eq!(s.retry_count, 10);
    assert_eq!(next_step(s, SessionEvent::Start).action, SessionAction::Stop);
}

#[test]
fn stream_error_and_close() {
    let s = next_step(SessionState::new(), SessionEvent::Start).state;
    let s = next_step(s, SessionEvent::HandshakeOk).state;
    let err = next_step(s, SessionEvent::StreamError);
    assert_eq!(err.transition.map(|c| (c.previous, c.current)), Some((2, 3)));
    assert_eq!(err.action, SessionAction::Sleep(1000));
    let close = next_step(s, SessionEvent::GracefulClose);
    assert_eq!(close.transition.map(|c| (c.previous, c.current)), Some((2, 0)));
    let again = next_step(close.state, SessionEvent::BackoffElapsed);
    assert_eq!(again.transition.map(|c| (c.previous, c.current)), Some((0, 1)));
    assert_eq!(again.action, SessionAction::Connect);
    let ignored = next_step(s, SessionEvent::Start);
    assert_eq!(ignored.action, SessionAction::Ignore);
    assert_eq!(ignored.transition, None);
}

#[test]
fn frame_handling() {
    assert_eq!(frame_action(FrameKind::Text), FrameAction::Normalize);
    assert_eq!(frame_action(FrameKind::Binary), FrameAction::Normalize);
    assert_eq!(frame_action(FrameKind::Ping), FrameAction::ReplyPong);
    assert_eq!(frame_action(FrameKind::Pong), FrameAction::Skip);
    assert_eq!(frame_action(FrameKind::Raw), FrameAction::Skip);
    assert_eq!(frame_action(FrameKind::Close), FrameAction::EndAttempt);
}

#[test]
fn venue_ids_from_display_names() {
    assert_eq!(infer_exchange_id_from_display("BinanceSpot"), 1);
    assert_eq!(infer_exchange_id_from_display("BinanceFutures"), 1);
    assert_eq!(infer_exchange_id_from_display("OkxSwap"), 2);
    assert_eq!(infer_exchange_id_from_display("BybitLinear"), 3);
    assert_eq!(infer_exchange_id_from_display("UpbitSpot"), 4);
    assert_eq!(infer_exchange_id_from_display("Bithumb"), 5);
    assert_eq!(infer_exchange_id_from_display("CoinbasePro"), 6);
    assert_eq!(infer_exchange_id_from_display("Kraken"), 0);
}
