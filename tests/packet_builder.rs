use crypto_feeder::data_parser::{
    DataParser, OrderBookLevel, ParsedData, StandardizedOrderBookUpdate, StandardizedTrade,
    StandardizedTradeBatch, VenueParser,
};
use crypto_feeder::errors::{CryptoFeederError, SerializationError};
use crypto_feeder::events::{ConnectionStatus, SystemEvent};
use crypto_feeder::packet_builder::{PacketBuilder, UdpPacket};
use crypto_feeder::protocol::{PacketHeader, MESSAGE_TYPE_ORDER_BOOK, MESSAGE_TYPE_TRADE_TICK};

fn header_of(p: &UdpPacket) -> PacketHeader {
    PacketHeader::from_bytes(&p.data[..67])
}

fn item(p: &UdpPacket, k: usize) -> (i64, i64) {
    let at = 67 + 16 * k;
    (
        i64::from_le_bytes(p.data[at..at + 8].try_into().unwrap()),
        i64::from_le_bytes(p.data[at + 8..at + 16].try_into().unwrap()),
    )
}

fn trade(symbol: &str, exchange: &str, price: i64, quantity: i64, taker: bool, ts: u64) -> StandardizedTrade {
    StandardizedTrade {
        symbol: symbol.into(),
        exchange: exchange.into(),
        price,
        quantity,
        is_buyer_taker: taker,
        timestamp: ts,
    }
}

#[test]
fn test_packet_builder_creation() {
    let builder = PacketBuilder::new();
    assert_eq!(builder.get_sequence_number(), 1);
}

#[test]
fn test_trade_packet_building() {
    let mut builder = PacketBuilder::new();
    let t = trade("BTC^USDT", "BinanceSpot", 5_000_000_000_000, 150_000_000, true, 1640995200000000000);
    let packets = builder.build_trade_packets(&t).unwrap();
    assert_eq!(packets.len(), 1);
    let packet = &packets[0];
    assert!(packet.size > 67);
    assert!(packet.size <= 1472);
}

#[test]
fn test_sequence_number_increment() {
    let mut builder = PacketBuilder::new();
    let initial_seq = builder.get_sequence_number();
    let trade1 = trade("BTC/USDT", "binance", 5_000_000_000_000, 100_000_000, false, 1640995200000000000);
    let _packets1 = builder.build_trade_packets(&trade1).unwrap();
    assert_eq!(builder.get_sequence_number(), initial_seq + 1);
    let trade2 = trade("ETH/USDT", "binance", 300_000_000_000, 200_000_000, true, 1640995260000000000);
    let _packets2 = builder.build_trade_packets(&trade2).unwrap();
    assert_eq!(builder.get_sequence_number(), initial_seq + 2);
}

#[test]
fn test_trade_batch_building_ws_message_unit() {
    let mut builder = PacketBuilder::new();
    let t1 = trade("XRP^USDT", "BinanceSpot", 50_000_000, 100_000_000_000, true, 1);
    let t2 = trade("XRP^USDT", "BinanceSpot", 49_000_000, 200_000_000_000, false, 1);
    let t3 = trade("XRP^USDT", "BinanceSpot", 51_000_000, 300_000_000_000, true, 1);
    let batch = StandardizedTradeBatch {
        symbol: "XRP^USDT".into(),
        exchange: "BinanceSpot".into(),
        exchange_timestamp: 1,
        trades: vec![t1, t2, t3],
    };
    let packets = builder.build_trade_batch_packets(&batch).unwrap();
    assert_eq!(packets.len(), 1);
    let header = PacketHeader::from_bytes(&packets[0].data[..std::mem::size_of::<PacketHeader>().min(67)]);
    assert_eq!(header.item_count(), 3);
    assert!(header.is_last());
    assert_eq!(header.message_type, MESSAGE_TYPE_TRADE_TICK);
    // buyer-taker trades first by ascending price, then the others by descending price
    assert_eq!(item(&packets[0], 0).0, 50_000_000);
    assert_eq!(item(&packets[0], 1).0, 51_000_000);
    assert_eq!(item(&packets[0], 2).0, 49_000_000);
    assert!(item(&packets[0], 0).1 < 0 && item(&packets[0], 1).1 < 0 && item(&packets[0], 2).1 >= 0);
}

#[test]
fn spot_trade_frame_to_datagram() {
    let frame = r#"{"stream":"btcusdt@trade","data":{"e":"trade","E":1700000000000,"s":"BTCUSDT","t":1,"p":"50000.00","q":"0.10000000","T":1700000000000,"m":false}}"#;
    let mut parser = DataParser::new();
    parser.register("BinanceSpot".to_string(), VenueParser::Binance);
    let parsed = parser.parse_message("BinanceSpot", frame.as_bytes().to_vec()).unwrap();
    let mut builder = PacketBuilder::new();
    let packets = builder.build_packets(&parsed).unwrap();
    assert_eq!(packets.len(), 1);
    let h = header_of(&packets[0]);
    assert_eq!(h.message_type, 1);
    assert_eq!(h.item_count(), 1);
    assert!(h.is_last());
    assert_eq!(&h.symbol[..9], b"BTC^USDT\0");
    assert_eq!(&h.exchange[..12], b"BinanceSpot\0");
    assert_eq!(h.exchange_timestamp, 1_700_000_000_000_000_000);
    let (price, qf) = item(&packets[0], 0);
    assert_eq!(price, 5_000_000_000_000);
    assert_eq!(qf & 0x7fff_ffff_ffff_ffff, 10_000_000);
    assert!(qf < 0);
    assert_eq!(packets[0].size, 67 + 16);
}

#[test]
fn mark_price_frame_to_three_datagrams() {
    let frame = r#"{"stream":"btcusdt@markPrice@1s","data":{"e":"markPriceUpdate","E":1700000000000,"s":"BTCUSDT","p":"50000.0","i":"50001.0","r":"0.0001"}}"#;
    let mut parser = DataParser::new();
    parser.register("BinanceFutures".to_string(), VenueParser::Binance);
    let parsed = parser.parse_message("BinanceFutures", frame.as_bytes().to_vec()).unwrap();
    let mut builder = PacketBuilder::new();
    let packets = builder.build_packets(&parsed).unwrap();
    assert_eq!(packets.len(), 3);
    let types: Vec<u8> = packets.iter().map(|p| header_of(p).message_type).collect();
    assert_eq!(types, vec![2, 3, 4]);
    for p in &packets {
        let h = header_of(p);
        assert_eq!(h.item_count(), 1);
        assert!(h.is_last());
        assert_eq!(h.exchange_timestamp, 1_700_000_000_000_000_000);
    }
    assert_eq!(item(&packets[1], 0).0, 5_000_000_000_000);
    let seqs: Vec<u64> = packets.iter().map(|p| header_of(p).sequence_number).collect();
    assert_eq!(seqs, vec![1, 2, 3]);
}

fn depth_frame(bids: usize, asks: usize) -> String {
    let b: Vec<String> = (0..bids).map(|i| format!("[\"{}.5\",\"1.0\"]", 1000 + (i * 7) % 85)).collect();
    let a: Vec<String> = (0..asks).map(|i| format!("[\"{}.25\",\"2.0\"]", 2000 + (i * 11) % 95)).collect();
    format!(
        "{{\"stream\":\"btcusdt@depth\",\"data\":{{\"e\":\"depthUpdate\",\"E\":1700000000000,\"s\":\"BTCUSDT\",\"U\":1,\"u\":2,\"b\":[{}],\"a\":[{}]}}}}",
        b.join(","),
        a.join(",")
    )
}

#[test]
fn order_book_chunking() {
    let frame = depth_frame(85, 95);
    let mut parser = DataParser::new();
    parser.register("BinanceSpot".to_string(), VenueParser::Binance);
    let parsed = parser.parse_message("BinanceSpot", frame.into_bytes()).unwrap();
    let mut builder = PacketBuilder::new();
    let packets = builder.build_packets(&parsed).unwrap();
    assert_eq!(packets.len(), 3);
    let counts: Vec<u8> = packets.iter().map(|p| header_of(p).item_count()).collect();
    assert_eq!(counts, vec![80, 80, 20]);
    let lasts: Vec<bool> = packets.iter().map(|p| header_of(p).is_last()).collect();
    assert_eq!(lasts, vec![false, false, true]);
    let mut all = Vec::new();
    for p in &packets {
        assert_eq!(header_of(p).message_type, MESSAGE_TYPE_ORDER_BOOK);
        assert!(p.size <= 1472);
        for k in 0..header_of(p).item_count() as usize {
            all.push(item(p, k));
        }
    }
    assert_eq!(all.len(), 180);
    for (k, (_, qf)) in all.iter().enumerate() {
        assert_eq!(*qf < 0, k >= 85);
        assert!(qf & 0x7fff_ffff_ffff_ffff > 0);
    }
    for w in all[..85].windows(2) {
        assert!(w[0].0 >= w[1].0);
    }
    for w in all[85..].windows(2) {
        assert!(w[0].0 <= w[1].0);
    }
}

#[test]
fn zero_quantity_levels_are_dropped() {
    let book = StandardizedOrderBookUpdate {
        symbol: "ETH^USDT".into(),
        exchange: "BinanceSpot".into(),
        bids: vec![OrderBookLevel { price: 10, quantity: 0 }, OrderBookLevel { price: 9, quantity: 5 }],
        asks: vec![OrderBookLevel { price: 12, quantity: 0 }],
        timestamp: 7,
    };
    let mut builder = PacketBuilder::new();
    let packets = builder.build_order_book_packets_at(&book, 99).unwrap();
    assert_eq!(packets.len(), 1);
    assert_eq!(header_of(&packets[0]).item_count(), 1);
    assert_eq!(header_of(&packets[0]).local_timestamp, 99);
    assert_eq!(item(&packets[0], 0), (9, 5));
    let empty = StandardizedOrderBookUpdate { bids: vec![], asks: vec![], ..book };
    assert_eq!(builder.build_order_book_packets_at(&empty, 1).unwrap().len(), 0);
    assert_eq!(builder.get_sequence_number(), 2);
}

#[test]
fn mtu_guard() {
    let mut header = PacketHeader::new();
    header.set_flags_and_count(true, 90);
    let items = vec![0u8; 90 * 16];
    match PacketBuilder::create_packet_from_flat(&header, &items) {
        Err(CryptoFeederError::SerializationError(SerializationError::PacketTooLarge)) => {}
        _ => panic!("serialization error expected"),
    }
    let ok = PacketBuilder::create_packet_from_flat(&header, &vec![0u8; 80 * 16]).unwrap();
    assert_eq!(ok.size, 67 + 1280);
}

#[test]
fn trade_batch_chunks_and_order() {
    let mut trades = Vec::new();
    for i in 0..170i64 {
        trades.push(trade("BTC^USDT", "BinanceSpot", 1000 + (i * 37) % 101, 1 + i, i % 3 == 0, 5));
    }
    let batch = StandardizedTradeBatch {
        symbol: "BTC^USDT".into(),
        exchange: "BinanceSpot".into(),
        exchange_timestamp: 5,
        trades,
    };
    let mut builder = PacketBuilder::new();
    let packets = builder.build_trade_batch_packets_at(&batch, 10).unwrap();
    assert_eq!(packets.len(), 3);
    let counts: Vec<u8> = packets.iter().map(|p| header_of(p).item_count()).collect();
    assert_eq!(counts, vec![80, 80, 10]);
    let mut all = Vec::new();
    for p in &packets {
        for k in 0..header_of(p).item_count() as usize {
            all.push(item(p, k));
        }
    }
    for w in all.windows(2) {
        let (a_taker, b_taker) = (w[0].1 < 0, w[1].1 < 0);
        assert!(a_taker || !b_taker);
        if a_taker && b_taker {
            assert!(w[0].0 <= w[1].0);
        }
        if !a_taker && !b_taker {
            assert!(w[0].0 >= w[1].0);
        }
    }
    let seqs: Vec<u64> = packets.iter().map(|p| header_of(p).sequence_number).collect();
    assert_eq!(seqs, vec![1, 2, 3]);
}

#[test]
fn equal_trades_keep_arrival_order() {
    let batch = StandardizedTradeBatch {
        symbol: "A^B".into(),
        exchange: "X".into(),
        exchange_timestamp: 1,
        trades: vec![
            trade("A^B", "X", 5, 1, true, 1),
            trade("A^B", "X", 5, 2, true, 1),
            trade("A^B", "X", 5, 3, false, 1),
            trade("A^B", "X", 5, 4, false, 1),
        ],
    };
    let mut builder = PacketBuilder::new();
    let packets = builder.build_trade_batch_packets_at(&batch, 0).unwrap();
    let qs: Vec<i64> = (0..4).map(|k| item(&packets[0], k).1 & 0x7fff_ffff_ffff_ffff).collect();
    assert_eq!(qs, vec![1, 2, 3, 4]);
}

#[test]
fn sequence_numbers_rise_across_builds() {
    let mut builder = PacketBuilder::new();
    let mut seen = Vec::new();
    for i in 0..5u64 {
        let t = trade("BTC^USDT", "BinanceSpot", 1, 1, true, i);
        for p in builder.build_packets_at(&ParsedData::Trade(t), 0).unwrap() {
            seen.push(header_of(&p).sequence_number);
        }
        let ev = SystemEvent::ConnectionStatus(ConnectionStatus::new(1, 0, 1, 0, 0));
        let p = builder.build_event_packet_at(&ev, "BinanceSpot", 3).unwrap();
        seen.push(header_of(&p).sequence_number);
    }
    assert_eq!(seen, (1..=10).collect::<Vec<u64>>());
}

#[test]
fn event_packet_layout() {
    let mut builder = PacketBuilder::new();
    let ev = SystemEvent::ConnectionStatus(ConnectionStatus::new(1, 0, 1, 2, 0));
    let p = builder.build_event_packet_at(&ev, "BinanceFutures", 77).unwrap();
    assert_eq!(p.size, 67 + 16);
    let h = header_of(&p);
    assert_eq!(h.message_type, 101);
    assert!(h.is_last());
    assert_eq!(h.item_count(), 1);
    assert_eq!(h.exchange_timestamp, 77);
    assert_eq!(h.local_timestamp, 77);
    assert_eq!(&h.symbol[..7], b"SYSTEM\0");
    assert_eq!(&h.exchange[..15], b"BinanceFutures\0");
    assert_eq!(&p.data[67..71], &[1, 0, 0, 1]);
    let q = builder.build_event_packet(&ev).unwrap();
    assert_eq!(&header_of(&q).exchange[..8], b"binance\0");
}

#[test]
fn liquidation_datagram() {
    let frame = r#"{"stream":"btcusdt@forceOrder","data":{"e":"forceOrder","E":1700000000000,"o":{"s":"BTCUSDT","S":"SELL","ap":"49000.0","q":"0.5"}}}"#;
    let parsed = DataParser::parse_binance_message(frame.as_bytes()).unwrap();
    let mut builder = PacketBuilder::new();
    let packets = builder.build_packets(&parsed).unwrap();
    assert_eq!(packets.len(), 1);
    let h = header_of(&packets[0]);
    assert_eq!(h.message_type, 5);
    let (price, qf) = item(&packets[0], 0);
    assert_eq!(price, 4_900_000_000_000);
    assert!(qf < 0);
    assert_eq!(qf & 0x7fff_ffff_ffff_ffff, 50_000_000);
}

#[test]
fn nested_batches_are_refused() {
    let inner = ParsedData::Multi(vec![]);
    let mut builder = PacketBuilder::new();
    match builder.build_packets_at(&ParsedData::Multi(vec![inner]), 0) {
        Err(CryptoFeederError::SerializationError(SerializationError::NestedBatch)) => {}
        _ => panic!("nested batch error expected"),
    }
    assert_eq!(builder.get_sequence_number(), 1);
}

#[test]
fn trades_group_by_timestamp_symbol_and_venue() {
    let trades = vec![
        trade("BTC^USDT", "BinanceSpot", 10, 1, false, 1),
        trade("BTC^USDT", "BinanceSpot", 20, 2, false, 2),
        trade("ETH^USDT", "BinanceSpot", 30, 3, true, 1),
        trade("BTC^USDT", "BinanceSpot", 40, 4, false, 1),
    ];
    let mut builder = PacketBuilder::new();
    let packets = builder.build_trade_packets_batch(&trades).unwrap();
    assert_eq!(packets.len(), 3);
    let h: Vec<PacketHeader> = packets.iter().map(header_of).collect();
    assert_eq!(h.iter().map(|x| x.exchange_timestamp).collect::<Vec<_>>(), vec![1, 2, 1]);
    assert_eq!(h.iter().map(|x| x.item_count()).collect::<Vec<_>>(), vec![2, 1, 1]);
    assert_eq!(&h[2].symbol[..9], b"ETH^USDT\0");
    assert_eq!(item(&packets[0], 0).0, 40);
    assert_eq!(item(&packets[0], 1).0, 10);
    let many: Vec<StandardizedTrade> = (0..60).map(|i| trade("A^B", "X", i, 1, true, 9)).collect();
    let more = builder.build_trade_packets_batch(&many).unwrap();
    let counts: Vec<u8> = more.iter().map(|p| header_of(p).item_count()).collect();
    assert_eq!(counts, vec![50, 10]);
    assert_eq!(header_of(&more[0]).sequence_number, 4);
    assert!(builder.build_trade_packets_batch(&vec![]).unwrap().is_empty());
}
