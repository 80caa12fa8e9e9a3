use crypto_feeder::events::{
    exchange_name_to_id, ConnectionStatus, ErrorEvent, SubscriptionStatus, SystemEvent, SystemHeartbeat,
    SystemStats, CONNECTION_STATUS_CONNECTING, CONNECTION_STATUS_DISCONNECTED, EXCHANGE_ID_BINANCE,
    MESSAGE_TYPE_CONNECTION_STATUS, MESSAGE_TYPE_SYSTEM_HEARTBEAT,
};

#[test]
fn test_event_struct_sizes() {
    assert_eq!(std::mem::size_of::<SystemHeartbeat>(), 16);
    assert_eq!(std::mem::size_of::<ConnectionStatus>(), 16);
    assert_eq!(std::mem::size_of::<SubscriptionStatus>(), 16);
    assert_eq!(std::mem::size_of::<SystemStats>(), 16);
    assert_eq!(std::mem::size_of::<ErrorEvent>(), 16);
}

#[test]
fn test_exchange_id_mapping() {
    assert_eq!(exchange_name_to_id("binance"), EXCHANGE_ID_BINANCE);
    assert_eq!(exchange_name_to_id("Binance"), EXCHANGE_ID_BINANCE);
    assert_eq!(exchange_name_to_id("BINANCE"), EXCHANGE_ID_BINANCE);
    assert_eq!(exchange_name_to_id("unknown"), 0);
}

#[test]
fn test_system_event_methods() {
    let heartbeat = SystemEvent::Heartbeat(SystemHeartbeat::new(3600, 5, 12345));
    assert_eq!(heartbeat.get_message_type(), MESSAGE_TYPE_SYSTEM_HEARTBEAT);
    assert_eq!(heartbeat.get_symbol(), "SYSTEM");
    assert_eq!(heartbeat.get_exchange(), "FEEDER");
    assert_eq!(heartbeat.get_payload_bytes().len(), 16);
}

#[test]
fn test_connection_status_event() {
    let event = SystemEvent::ConnectionStatus(ConnectionStatus::new(
        EXCHANGE_ID_BINANCE,
        CONNECTION_STATUS_DISCONNECTED,
        CONNECTION_STATUS_CONNECTING,
        1,
        0,
    ));
    assert_eq!(event.get_message_type(), MESSAGE_TYPE_CONNECTION_STATUS);
    assert_eq!(event.get_exchange(), "binance");
}

#[test]
fn payload_layouts() {
    let hb = SystemEvent::Heartbeat(SystemHeartbeat::new(3600, 5, 12345)).get_payload_bytes();
    assert_eq!(&hb[0..8], &3600u64.to_le_bytes());
    assert_eq!(&hb[8..12], &5u32.to_le_bytes());
    assert_eq!(&hb[12..16], &12345u32.to_le_bytes());
    let cs = SystemEvent::ConnectionStatus(ConnectionStatus::new(2, 1, 3, 7, 99)).get_payload_bytes();
    assert_eq!(cs, vec![2, 0, 1, 3, 7, 0, 0, 0, 99, 0, 0, 0, 0, 0, 0, 0]);
    let er = SystemEvent::ErrorEvent(ErrorEvent::new(9, 6, 2, 1)).get_payload_bytes();
    assert_eq!(er, vec![9, 0, 0, 0, 6, 0, 2, 0, 1, 0, 0, 0, 0, 0, 0, 0]);
    let st = SystemEvent::SystemStats(SystemStats::new(1, 2, 3, 4)).get_payload_bytes();
    assert_eq!(st, vec![1, 0, 0, 0, 2, 0, 0, 0, 3, 0, 0, 0, 4, 0, 0, 0]);
}

#[test]
fn subscription_symbol_is_cut_and_read_back() {
    let s = SubscriptionStatus::new(4, 1, 2, "VERYLONGSYMBOL^KRW");
    assert_eq!(&s.symbol_short[..11], b"VERYLONGSYM");
    assert_eq!(s.symbol_short[11], 0);
    let e = SystemEvent::SubscriptionStatus(s);
    assert_eq!(e.get_symbol(), "VERYLONGSYM");
    assert_eq!(e.get_exchange(), "upbit");
    let p = e.get_payload_bytes();
    assert_eq!(&p[0..4], &[4, 0, 1, 2]);
    let short = SystemEvent::SubscriptionStatus(SubscriptionStatus::new(9, 0, 0, "ETH"));
    assert_eq!(short.get_symbol(), "ETH");
    assert_eq!(short.get_exchange(), "unknown");
}

#[test]
fn every_exchange_name_maps() {
    assert_eq!(exchange_name_to_id("OKX"), 2);
    assert_eq!(exchange_name_to_id("Bybit"), 3);
    assert_eq!(exchange_name_to_id("upbit"), 4);
    assert_eq!(exchange_name_to_id("BITHUMB"), 5);
    assert_eq!(exchange_name_to_id("coinbase"), 6);
    assert_eq!(exchange_name_to_id("binancefutures"), 0);
}
