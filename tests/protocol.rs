use crypto_feeder::decimal::parse_scaled;
use crypto_feeder::protocol::{
    encode_name_field, OrderBookItem, PacketHeader, TradeTickItem, MESSAGE_TYPE_TRADE_TICK, PRICE_SCALE,
    QUANTITY_SCALE,
};

#[test]
fn test_packet_header_size() {
    assert_eq!(PacketHeader::new().to_bytes().len(), 67);
}

#[test]
fn test_order_book_item_size() {
    assert_eq!(std::mem::size_of::<OrderBookItem>(), 16);
}

#[test]
fn test_trade_tick_item_size() {
    assert_eq!(std::mem::size_of::<TradeTickItem>(), 16);
}

#[test]
fn test_flags_and_count() {
    let mut header = PacketHeader::new();
    header.set_flags_and_count(true, 42);
    assert!(header.is_last());
    assert_eq!(header.item_count(), 42);
}

fn unscaled(v: i64) -> f64 {
    v as f64 / PRICE_SCALE as f64
}

#[test]
fn test_trade_tick_flags() {
    let item = TradeTickItem::new(parse_scaled("50000.0").unwrap(), parse_scaled("1.5").unwrap(), true);
    assert!(item.is_buyer_taker());
    assert_eq!(unscaled(item.price), 50000.0);
    assert_eq!(item.quantity() as f64 / QUANTITY_SCALE as f64, 1.5);
}

#[test]
fn test_scaling() {
    let item = OrderBookItem::new(parse_scaled("42000.12345678").unwrap(), parse_scaled("0.00000001").unwrap(), true);
    assert!((unscaled(item.price) - 42000.12345678).abs() < 0.00000001);
    assert!((item.quantity() as f64 / QUANTITY_SCALE as f64 - 0.00000001).abs() < 0.000000001);
    assert!(item.is_ask());
}

#[test]
fn test_orderbook_flags() {
    let ask_item = OrderBookItem::new(parse_scaled("50000.0").unwrap(), parse_scaled("1.5").unwrap(), true);
    let bid_item = OrderBookItem::new(parse_scaled("49999.0").unwrap(), parse_scaled("2.0").unwrap(), false);
    assert!(ask_item.is_ask());
    assert!(!bid_item.is_ask());
    assert_eq!(unscaled(ask_item.price), 50000.0);
    assert_eq!(ask_item.quantity() as f64 / QUANTITY_SCALE as f64, 1.5);
    assert_eq!(unscaled(bid_item.price), 49999.0);
    assert_eq!(bid_item.quantity() as f64 / QUANTITY_SCALE as f64, 2.0);
}

#[test]
fn flags_cap_count_at_eighty() {
    let mut header = PacketHeader::new();
    header.set_flags_and_count(false, 90);
    assert!(!header.is_last());
    assert_eq!(header.item_count(), 80);
    assert_eq!(header.flags_and_count, 80);
    header.set_packet_info(MESSAGE_TYPE_TRADE_TICK, 5, true);
    assert_eq!(header.flags_and_count, 0x85);
    assert!(header.is_trade_tick());
    assert!(!header.is_order_book());
}

#[test]
fn name_field_keeps_allowed_bytes_and_pads() {
    let field = encode_name_field(" BTC/USDT é^x_y-z!");
    let expected: &[u8] = b"BTCUSDT^x_y-z";
    assert_eq!(&field[..expected.len()], expected);
    assert!(field[expected.len()..].iter().all(|b| *b == 0));
    assert!(field.iter().all(|b| *b == 0 || b.is_ascii_alphanumeric() || *b == b'^' || *b == b'_' || *b == b'-'));
}

#[test]
fn name_field_truncates_to_nineteen_bytes() {
    let field = encode_name_field("ABCDEFGHIJKLMNOPQRSTUVWXYZ");
    assert_eq!(&field[..19], b"ABCDEFGHIJKLMNOPQRS");
    assert_eq!(field[19], 0);
}

#[test]
fn header_bytes_round_trip() {
    let mut header = PacketHeader::new();
    header.sequence_number = 0x0102030405060708;
    header.exchange_timestamp = 1_700_000_000_000_000_000;
    header.local_timestamp = 42;
    header.set_packet_info(MESSAGE_TYPE_TRADE_TICK, 3, true);
    header.set_symbol("BTC^USDT");
    header.set_exchange("BinanceSpot");
    let bytes = header.to_bytes();
    assert_eq!(bytes.len(), 67);
    assert_eq!(bytes[0], 1);
    assert_eq!(&bytes[1..9], &[8, 7, 6, 5, 4, 3, 2, 1]);
    assert_eq!(bytes[25], MESSAGE_TYPE_TRADE_TICK);
    assert_eq!(bytes[26], 0x83);
    assert_eq!(&bytes[27..35], b"BTC^USDT");
    assert_eq!(&bytes[47..58], b"BinanceSpot");
    let back = PacketHeader::from_bytes(&bytes);
    assert_eq!(back.to_bytes(), bytes);
    assert_eq!(back.sequence_number, 0x0102030405060708);
}

#[test]
fn item_bytes_are_little_endian_with_flag_bit() {
    let item = TradeTickItem::new(5_000_000_000_000, 10_000_000, true);
    let bytes = item.to_bytes();
    assert_eq!(bytes.len(), 16);
    assert_eq!(i64::from_le_bytes(bytes[0..8].try_into().unwrap()), 5_000_000_000_000);
    let q = i64::from_le_bytes(bytes[8..16].try_into().unwrap());
    assert!(q < 0);
    assert_eq!(q & 0x7fff_ffff_ffff_ffff, 10_000_000);
}

#[test]
fn scaled_decimal_parsing() {
    assert_eq!(parse_scaled("50000.00"), Some(5_000_000_000_000));
    assert_eq!(parse_scaled("0.10000000"), Some(10_000_000));
    assert_eq!(parse_scaled("-0.0001"), Some(-10_000));
    assert_eq!(parse_scaled(".5"), Some(50_000_000));
    assert_eq!(parse_scaled("7."), Some(700_000_000));
    assert_eq!(parse_scaled("1.123456789"), Some(112_345_678));
    assert_eq!(parse_scaled("-1.999999999"), Some(-199_999_999));
    assert_eq!(parse_scaled("92233720368.54775807"), Some(i64::MAX));
    assert_eq!(parse_scaled("92233720368.54775808"), None);
    assert_eq!(parse_scaled("1e5"), None);
    assert_eq!(parse_scaled(""), None);
    assert_eq!(parse_scaled("."), None);
    assert_eq!(parse_scaled("-"), None);
    assert_eq!(parse_scaled("1.2.3"), None);
}

#[test]
fn scaled_round_trip_within_range() {
    // 2^55 / 10^8 is about 360287970.19
    for text in ["0", "0.00000001", "123.45678901", "360287970.18963968"] {
        let v = parse_scaled(text).unwrap();
        let back = format!("{}.{:08}", v / 100_000_000, v % 100_000_000);
        let expect: f64 = text.parse().unwrap();
        assert!((back.parse::<f64>().unwrap() - expect).abs() < 1e-8 * expect.max(1.0));
    }
}
