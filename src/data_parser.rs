//! Normalizer: exchange frames to canonical records.

use vstd::prelude::*;
use crate::text::{chars_of, push_char, to_upper, to_lower, upper_of, lower_of};
use crate::json::{JsonValue, parse_json, json_of, json_get, as_text, as_uint, as_flag, same_text};
use crate::decimal::{parse_scaled, scaled_decimal};
use crate::errors::{CryptoFeederError, ParseError};
use crate::clock::now_nanos;

verus! {

/// A trade; price and quantity are scaled by 10^8, the timestamp is in nanoseconds.
#[derive(Debug, Clone)]
pub struct StandardizedTrade {
    pub symbol: String,
    pub exchange: String,
    pub price: i64,
    pub quantity: i64,
    pub is_buyer_taker: bool,
    pub timestamp: u64,
}

/// Trades of one frame that share symbol and venue.
#[derive(Debug, Clone)]
pub struct StandardizedTradeBatch {
    pub symbol: String,
    pub exchange: String,
    pub exchange_timestamp: u64,
    pub trades: Vec<StandardizedTrade>,
}

/// An order-book delta; levels are kept as received.
#[derive(Debug, Clone)]
pub struct StandardizedOrderBookUpdate {
    pub symbol: String,
    pub exchange: String,
    pub bids: Vec<OrderBookLevel>,
    pub asks: Vec<OrderBookLevel>,
    pub timestamp: u64,
}

/// A price level; both values scaled by 10^8.
#[derive(Debug, Clone, Copy, PartialEq, Eq, Structural)]
pub struct OrderBookLevel {
    pub price: i64,
    pub quantity: i64,
}

/// A canonical record. Values of the single-value kinds are scaled by 10^8.
#[derive(Debug)]
pub enum ParsedData {
    Trade(StandardizedTrade),
    TradeBatch(StandardizedTradeBatch),
    OrderBook(StandardizedOrderBookUpdate),
    IndexPrice { symbol: String, exchange: String, value: i64, timestamp: u64 },
    MarkPrice { symbol: String, exchange: String, value: i64, timestamp: u64 },
    FundingRate { symbol: String, exchange: String, value: i64, timestamp: u64 },
    Liquidation {
        symbol: String,
        exchange: String,
        price: i64,
        quantity: i64,
        is_sell: bool,
        timestamp: u64,
    },
    Multi(Vec<ParsedData>),
}

pub open spec fn ends_with(u: Seq<char>, q: Seq<char>) -> bool {
    u.len() >= q.len() && u.skip(u.len() - q.len()) == q
}

pub open spec fn with_quote(u: Seq<char>, q: Seq<char>) -> Seq<char> {
    u.take(u.len() - q.len()) + seq!['^'] + q
}

/// Whether the upper-cased text ends with a recognized quote currency.
pub open spec fn has_quote_suffix(u: Seq<char>) -> bool {
    ends_with(u, "USDT"@) || ends_with(u, "USDC"@) || ends_with(u, "BUSD"@) || ends_with(u, "BTC"@)
        || ends_with(u, "ETH"@) || ends_with(u, "BNB"@)
}

/// `BASE^QUOTE` for the first quote suffix of the upper-cased symbol, in the order
/// USDT, USDC, BUSD, BTC, ETH, BNB; the symbol unchanged when none matches.
pub open spec fn normalized_symbol(s: Seq<char>) -> Seq<char> {
    let u = upper_of(s);
    if ends_with(u, "USDT"@) {
        with_quote(u, "USDT"@)
    } else if ends_with(u, "USDC"@) {
        with_quote(u, "USDC"@)
    } else if ends_with(u, "BUSD"@) {
        with_quote(u, "BUSD"@)
    } else if ends_with(u, "BTC"@) {
        with_quote(u, "BTC"@)
    } else if ends_with(u, "ETH"@) {
        with_quote(u, "ETH"@)
    } else if ends_with(u, "BNB"@) {
        with_quote(u, "BNB"@)
    } else {
        s
    }
}

/// Normalization is idempotent on the symbols that it leaves unchanged, those whose
/// upper-cased form ends in no recognized quote currency.
pub proof fn lemma_normalize_idempotent(s: Seq<char>)
    requires
        !has_quote_suffix(upper_of(s)),
    ensures
        normalized_symbol(normalized_symbol(s)) == normalized_symbol(s),
{
}

pub fn ends_with_text(u: &Vec<char>, q: &str) -> (r: bool)
    ensures
        r == ends_with(u@, q@),
{
    let qc = chars_of(q);
    if qc.len() > u.len() {
        return false;
    }
    let off = u.len() - qc.len();
    let un = u.len();
    let mut j: usize = 0;
    while j < qc.len()
        invariant
            un == u@.len(),
            qc@ == q@,
            off + qc@.len() == u@.len(),
            j <= qc@.len(),
            forall|k: int| 0 <= k < j ==> u@[off + k] == qc@[k],
        decreases qc@.len() - j,
    {
        if u[off + j] != qc[j] {
            assert(u@.skip(off as int)[j as int] != q@[j as int]);
            return false;
        }
        j = j + 1;
    }
    assert(u@.skip(off as int) =~= q@);
    true
}

/// Appends the characters of `s` to `dst`.
pub fn append_text(dst: &mut String, s: &str)
    ensures
        final(dst)@ == old(dst)@ + s@,
{
    let cs = chars_of(s);
    let ghost start = dst@;
    let mut i: usize = 0;
    while i < cs.len()
        invariant
            i <= cs@.len(),
            cs@ == s@,
            dst@ == start + cs@.take(i as int),
        decreases cs@.len() - i,
    {
        push_char(dst, cs[i]);
        assert(cs@.take(i + 1) =~= cs@.take(i as int).push(cs@[i as int]));
        i = i + 1;
    }
    assert(cs@.take(cs@.len() as int) =~= cs@);
}

fn quoted(u: &Vec<char>, q: &str) -> (r: String)
    requires
        ends_with(u@, q@),
    ensures
        r@ == with_quote(u@, q@),
{
    let qn = chars_of(q).len();
    let base = u.len() - qn;
    let mut out = String::new();
    let mut i: usize = 0;
    while i < base
        invariant
            base <= u@.len(),
            i <= base,
            out@ == u@.take(i as int),
        decreases base - i,
    {
        push_char(&mut out, u[i]);
        assert(u@.take(i + 1) =~= u@.take(i as int).push(u@[i as int]));
        i = i + 1;
    }
    push_char(&mut out, '^');
    append_text(&mut out, q);
    assert(out@ =~= with_quote(u@, q@));
    out
}

impl DataParser {
    /// Binance symbols to `BASE^QUOTE` (`BTCUSDT` becomes `BTC^USDT`).
    pub fn normalize_binance_symbol(symbol: &str) -> (r: String)
        ensures
            r@ == normalized_symbol(symbol@),
    {
        let upper = to_upper(symbol);
        let u = chars_of(upper.as_str());
        if ends_with_text(&u, "USDT") {
            quoted(&u, "USDT")
        } else if ends_with_text(&u, "USDC") {
            quoted(&u, "USDC")
        } else if ends_with_text(&u, "BUSD") {
            quoted(&u, "BUSD")
        } else if ends_with_text(&u, "BTC") {
            quoted(&u, "BTC")
        } else if ends_with_text(&u, "ETH") {
            quoted(&u, "ETH")
        } else if ends_with_text(&u, "BNB") {
            quoted(&u, "BNB")
        } else {
            symbol.to_owned()
        }
    }

    /// The venue tag for an exchange and a market kind (`binance`, `spot`: `BinanceSpot`).
    pub fn normalize_exchange_name(exchange: &str, market_type: &str) -> (r: String)
        ensures
            r@ == venue_tag(exchange@, market_type@),
    {
        let lower = to_lower(exchange);
        let m = market_type.to_owned();
        if crate::json::same_text(&lower, "binance") {
            if crate::json::same_text(&m, "futures") {
                "BinanceFutures".to_owned()
            } else {
                "BinanceSpot".to_owned()
            }
        } else if crate::json::same_text(&lower, "bybit") {
            if crate::json::same_text(&m, "linear") {
                "BybitLinear".to_owned()
            } else if crate::json::same_text(&m, "inverse") {
                "BybitInverse".to_owned()
            } else {
                "BybitSpot".to_owned()
            }
        } else if crate::json::same_text(&lower, "okx") {
            if crate::json::same_text(&m, "swap") {
                "OkxSwap".to_owned()
            } else if crate::json::same_text(&m, "futures") {
                "OkxFutures".to_owned()
            } else {
                "OkxSpot".to_owned()
            }
        } else {
            let mut out = exchange.to_owned();
            append_text(&mut out, "_");
            append_text(&mut out, market_type);
            out
        }
    }
}

/// Venue tags by exchange (compared in lower case) and market kind; other exchanges
/// give `<exchange>_<market>`.
pub open spec fn venue_tag(exchange: Seq<char>, market: Seq<char>) -> Seq<char> {
    let e = lower_of(exchange);
    if e == "binance"@ {
        if market == "futures"@ {
            "BinanceFutures"@
        } else {
            "BinanceSpot"@
        }
    } else if e == "bybit"@ {
        if market == "linear"@ {
            "BybitLinear"@
        } else if market == "inverse"@ {
            "BybitInverse"@
        } else {
            "BybitSpot"@
        }
    } else if e == "okx"@ {
        if market == "swap"@ {
            "OkxSwap"@
        } else if market == "futures"@ {
            "OkxFutures"@
        } else {
            "OkxSpot"@
        }
    } else {
        exchange + "_"@ + market
    }
}

/// How frames of a venue are read.
#[derive(Debug, Clone, Copy, PartialEq, Eq, Structural)]
pub enum VenueParser {
    Binance,
    Default,
}

/// Parsers by venue display name.
pub struct DataParser {
    pub parsers: Vec<(String, VenueParser)>,
}


/// Milliseconds to nanoseconds, when the result fits in 64 bits.
pub open spec fn ms_to_ns(ms: u64) -> Option<u64> {
    if ms * 1_000_000 <= u64::MAX {
        Some((ms * 1_000_000) as u64)
    } else {
        None
    }
}

/// The event of a combined-stream frame (its `data` member), or the root itself.
pub open spec fn event_of(root: JsonValue) -> JsonValue {
    match json_get(root, "data"@) {
        Some(d) => d,
        None => root,
    }
}

/// A decimal string member, scaled by 10^8.
pub open spec fn decimal_member(ev: JsonValue, key: Seq<char>) -> Option<int> {
    match as_text(json_get(ev, key)) {
        Some(t) => scaled_decimal(t),
        None => None,
    }
}

/// A millisecond timestamp member, in nanoseconds.
pub open spec fn time_member(ev: JsonValue, key: Seq<char>) -> Option<u64> {
    match as_uint(json_get(ev, key)) {
        Some(ms) => ms_to_ns(ms),
        None => None,
    }
}

/// The symbol member, normalized.
pub open spec fn symbol_member(ev: JsonValue) -> Option<Seq<char>> {
    match as_text(json_get(ev, "s"@)) {
        Some(t) => Some(normalized_symbol(t)),
        None => None,
    }
}

/// The fields that a trade or an aggregated trade must have.
pub open spec fn trade_fields_ok(ev: JsonValue, with_id: bool) -> bool {
    &&& as_uint(json_get(ev, "E"@)) is Some
    &&& symbol_member(ev) is Some
    &&& (with_id ==> as_uint(json_get(ev, "t"@)) is Some)
    &&& decimal_member(ev, "p"@) is Some
    &&& decimal_member(ev, "q"@) is Some
    &&& time_member(ev, "T"@) is Some
    &&& as_flag(json_get(ev, "m"@)) is Some
}

/// A trade as the event describes it, under venue tag `venue`.
pub open spec fn trade_from(ev: JsonValue, venue: Seq<char>, t: StandardizedTrade) -> bool {
    &&& t.symbol@ == symbol_member(ev)->0
    &&& t.exchange@ == venue
    &&& t.price == decimal_member(ev, "p"@)->0
    &&& t.quantity == decimal_member(ev, "q"@)->0
    &&& t.is_buyer_taker == !as_flag(json_get(ev, "m"@))->0
    &&& t.timestamp == time_member(ev, "T"@)->0
}

/// A `[price, quantity]` pair of decimal strings.
pub open spec fn level_of(v: JsonValue) -> Option<(int, int)> {
    match v {
        JsonValue::Array(a) => if a@.len() == 2 {
            match (as_text(Some(a@[0])), as_text(Some(a@[1]))) {
                (Some(p), Some(q)) => match (scaled_decimal(p), scaled_decimal(q)) {
                    (Some(x), Some(y)) => Some((x, y)),
                    _ => None,
                },
                _ => None,
            }
        } else {
            None
        },
        _ => None,
    }
}

pub open spec fn levels_member_ok(ev: JsonValue, key: Seq<char>) -> bool {
    match json_get(ev, key) {
        Some(JsonValue::Array(a)) => forall|i: int| 0 <= i < a@.len() ==> (#[trigger] level_of(a@[i])) is Some,
        _ => false,
    }
}

pub open spec fn levels_from(ev: JsonValue, key: Seq<char>, out: Seq<OrderBookLevel>) -> bool {
    match json_get(ev, key) {
        Some(JsonValue::Array(a)) => {
            &&& out.len() == a@.len()
            &&& forall|i: int|
                0 <= i < a@.len() ==> level_of(a@[i]) == Some(
                    (#[trigger] out[i].price as int, out[i].quantity as int),
                )
        },
        _ => false,
    }
}

pub open spec fn depth_fields_ok(ev: JsonValue) -> bool {
    &&& time_member(ev, "E"@) is Some
    &&& symbol_member(ev) is Some
    &&& as_uint(json_get(ev, "U"@)) is Some
    &&& as_uint(json_get(ev, "u"@)) is Some
    &&& levels_member_ok(ev, "b"@)
    &&& levels_member_ok(ev, "a"@)
}

/// A missing `E` counts as zero.
pub open spec fn optional_time(ev: JsonValue) -> Option<u64> {
    match as_uint(json_get(ev, "E"@)) {
        Some(ms) => ms_to_ns(ms),
        None => Some(0),
    }
}

pub open spec fn mark_fields_ok(ev: JsonValue) -> bool {
    &&& symbol_member(ev) is Some
    &&& decimal_member(ev, "p"@) is Some
    &&& decimal_member(ev, "i"@) is Some
    &&& decimal_member(ev, "r"@) is Some
    &&& optional_time(ev) is Some
}

/// The liquidation price text: `ap` when present, else `p`, else `0`.
pub open spec fn liquidation_price(o: JsonValue) -> int {
    let v = match json_get(o, "ap"@) {
        Some(x) => Some(x),
        None => json_get(o, "p"@),
    };
    match as_text(v) {
        Some(t) => match scaled_decimal(t) {
            Some(x) => x,
            None => 0,
        },
        None => 0,
    }
}

pub open spec fn liquidation_quantity(o: JsonValue) -> int {
    match decimal_member(o, "q"@) {
        Some(x) => x,
        None => 0,
    }
}

/// Whether the side member reads `SELL`, in any ASCII case.
pub open spec fn is_sell_side(o: JsonValue) -> bool {
    match as_text(json_get(o, "S"@)) {
        Some(t) => t.len() == "sell"@.len() && forall|i: int|
            0 <= i < t.len() ==> #[trigger] t[i] == "sell"@[i] || t[i] == "SELL"@[i],
        None => false,
    }
}

pub open spec fn force_fields_ok(ev: JsonValue) -> bool {
    &&& json_get(ev, "o"@) is Some
    &&& symbol_member(json_get(ev, "o"@)->0) is Some
    &&& optional_time(ev) is Some
}

pub open spec fn single_from(d: ParsedData, kind: int, sym: Seq<char>, venue: Seq<char>, value: int, ts: u64) -> bool {
    match d {
        ParsedData::IndexPrice { symbol, exchange, value: v, timestamp } => kind == 0 && symbol@ == sym && exchange@ == venue && v == value && timestamp == ts,
        ParsedData::MarkPrice { symbol, exchange, value: v, timestamp } => kind == 1 && symbol@ == sym && exchange@ == venue && v == value && timestamp == ts,
        ParsedData::FundingRate { symbol, exchange, value: v, timestamp } => kind == 2 && symbol@ == sym && exchange@ == venue && v == value && timestamp == ts,
        _ => false,
    }
}

/// What a well-formed event of a handled type normalizes to, under the venue tag
/// that the Binance parser gives it.
pub open spec fn event_record(ev: JsonValue, e: Seq<char>, d: ParsedData, spot: Seq<char>, futures: Seq<char>) -> bool {
    if e == "trade"@ {
        match d {
            ParsedData::Trade(t) => trade_from(ev, spot, t),
            _ => false,
        }
    } else if e == "aggTrade"@ {
        match d {
            ParsedData::TradeBatch(b) => {
                &&& b.trades@.len() == 1
                &&& trade_from(ev, futures, b.trades@[0])
                &&& b.symbol@ == symbol_member(ev)->0
                &&& b.exchange@ == futures
                &&& b.exchange_timestamp == time_member(ev, "T"@)->0
            },
            _ => false,
        }
    } else if e == "depthUpdate"@ {
        match d {
            ParsedData::OrderBook(ob) => {
                &&& ob.symbol@ == symbol_member(ev)->0
                &&& ob.exchange@ == spot
                &&& ob.timestamp == time_member(ev, "E"@)->0
                &&& levels_from(ev, "b"@, ob.bids@)
                &&& levels_from(ev, "a"@, ob.asks@)
            },
            _ => false,
        }
    } else if e == "markPriceUpdate"@ {
        match d {
            ParsedData::Multi(items) => {
                let sym = symbol_member(ev)->0;
                let ts = optional_time(ev)->0;
                &&& items@.len() == 3
                &&& single_from(items@[0], 0, sym, futures, decimal_member(ev, "i"@)->0, ts)
                &&& single_from(items@[1], 1, sym, futures, decimal_member(ev, "p"@)->0, ts)
                &&& single_from(items@[2], 2, sym, futures, decimal_member(ev, "r"@)->0, ts)
            },
            _ => false,
        }
    } else {
        let o = json_get(ev, "o"@)->0;
        match d {
            ParsedData::Liquidation { symbol, exchange, price, quantity, is_sell, timestamp } => {
                &&& symbol@ == symbol_member(o)->0
                &&& exchange@ == futures
                &&& price == liquidation_price(o)
                &&& quantity == liquidation_quantity(o)
                &&& is_sell == is_sell_side(o)
                &&& timestamp == optional_time(ev)->0
            },
            _ => false,
        }
    }
}

pub open spec fn handled_event(e: Seq<char>) -> bool {
    e == "trade"@ || e == "aggTrade"@ || e == "depthUpdate"@ || e == "markPriceUpdate"@ || e
        == "forceOrder"@
}

pub open spec fn event_fields_ok(ev: JsonValue, e: Seq<char>) -> bool {
    if e == "trade"@ {
        trade_fields_ok(ev, true)
    } else if e == "aggTrade"@ {
        trade_fields_ok(ev, false)
    } else if e == "depthUpdate"@ {
        depth_fields_ok(ev)
    } else if e == "markPriceUpdate"@ {
        mark_fields_ok(ev)
    } else {
        force_fields_ok(ev)
    }
}

/// The outcome of reading a Binance frame, with venue tags `spot` for trades and
/// order books and `futures` for the other records.
pub open spec fn binance_outcome(
    data: Seq<u8>,
    r: Result<ParsedData, CryptoFeederError>,
    spot: Seq<char>,
    futures: Seq<char>,
) -> bool {
    match json_of(data) {
        None => r == Err::<ParsedData, _>(CryptoFeederError::JsonParseError(ParseError::InvalidJson)),
        Some(root) => {
            let ev = event_of(root);
            match as_text(json_get(ev, "e"@)) {
                None => r == Err::<ParsedData, _>(
                    CryptoFeederError::JsonParseError(ParseError::MissingEventType),
                ),
                Some(e) => if !handled_event(e) {
                    r == Err::<ParsedData, _>(
                        CryptoFeederError::JsonParseError(ParseError::UnsupportedEvent),
                    )
                } else if !event_fields_ok(ev, e) {
                    r == Err::<ParsedData, _>(
                        CryptoFeederError::JsonParseError(ParseError::MalformedEvent),
                    )
                } else {
                    r is Ok && event_record(ev, e, r->Ok_0, spot, futures)
                },
            }
        },
    }
}


fn text_member<'a>(ev: &'a JsonValue, key: &str) -> (r: Option<&'a String>)
    ensures
        r is Some == as_text(json_get(*ev, key@)) is Some,
        r is Some ==> r->0@ == as_text(json_get(*ev, key@))->0,
{
    match ev.get(key) {
        Some(v) => v.as_str(),
        None => None,
    }
}

fn uint_member(ev: &JsonValue, key: &str) -> (r: Option<u64>)
    ensures
        r == as_uint(json_get(*ev, key@)),
{
    match ev.get(key) {
        Some(v) => v.as_u64(),
        None => None,
    }
}

fn flag_member(ev: &JsonValue, key: &str) -> (r: Option<bool>)
    ensures
        r == as_flag(json_get(*ev, key@)),
{
    match ev.get(key) {
        Some(v) => v.as_bool(),
        None => None,
    }
}

fn scaled_member(ev: &JsonValue, key: &str) -> (r: Option<i64>)
    ensures
        r is Some == decimal_member(*ev, key@) is Some,
        r is Some ==> r->0 == decimal_member(*ev, key@)->0,
{
    match text_member(ev, key) {
        Some(t) => parse_scaled(t.as_str()),
        None => None,
    }
}

fn to_ns(ms: u64) -> (r: Option<u64>)
    ensures
        r == ms_to_ns(ms),
{
    if ms > 18_446_744_073_709 {
        None
    } else {
        Some(ms * 1_000_000)
    }
}

fn time_member_exec(ev: &JsonValue, key: &str) -> (r: Option<u64>)
    ensures
        r == time_member(*ev, key@),
{
    match uint_member(ev, key) {
        Some(ms) => to_ns(ms),
        None => None,
    }
}

fn optional_time_exec(ev: &JsonValue) -> (r: Option<u64>)
    ensures
        r == optional_time(*ev),
{
    match uint_member(ev, "E") {
        Some(ms) => to_ns(ms),
        None => Some(0),
    }
}

fn symbol_member_exec(ev: &JsonValue) -> (r: Option<String>)
    ensures
        r is Some == symbol_member(*ev) is Some,
        r is Some ==> r->0@ == symbol_member(*ev)->0,
{
    match text_member(ev, "s") {
        Some(t) => Some(DataParser::normalize_binance_symbol(t.as_str())),
        None => None,
    }
}

fn convert_trade(ev: &JsonValue, with_id: bool, venue: &str) -> (r: Option<StandardizedTrade>)
    ensures
        r is Some == trade_fields_ok(*ev, with_id),
        r is Some ==> trade_from(*ev, venue@, r->0),
{
    let e = uint_member(ev, "E");
    let sym = symbol_member_exec(ev);
    let id_ok = if with_id { uint_member(ev, "t").is_some() } else { true };
    let price = scaled_member(ev, "p");
    let qty = scaled_member(ev, "q");
    let ts = time_member_exec(ev, "T");
    let maker = flag_member(ev, "m");
    if e.is_none() || !id_ok {
        return None;
    }
    match (sym, price, qty, ts, maker) {
        (Some(symbol), Some(price), Some(quantity), Some(timestamp), Some(m)) => Some(
            StandardizedTrade {
                symbol,
                exchange: venue.to_owned(),
                price,
                quantity,
                is_buyer_taker: !m,
                timestamp,
            },
        ),
        _ => None,
    }
}

fn convert_level(v: &JsonValue) -> (r: Option<OrderBookLevel>)
    ensures
        r is Some == level_of(*v) is Some,
        r is Some ==> level_of(*v) == Some((r->0.price as int, r->0.quantity as int)),
{
    match v {
        JsonValue::Array(a) => {
            if a.len() != 2 {
                return None;
            }
            let p = match a[0].as_str() {
                Some(t) => parse_scaled(t.as_str()),
                None => None,
            };
            let q = match a[1].as_str() {
                Some(t) => parse_scaled(t.as_str()),
                None => None,
            };
            match (p, q) {
                (Some(price), Some(quantity)) => Some(OrderBookLevel { price, quantity }),
                _ => None,
            }
        },
        _ => None,
    }
}

fn convert_levels(ev: &JsonValue, key: &str) -> (r: Option<Vec<OrderBookLevel>>)
    ensures
        r is Some == levels_member_ok(*ev, key@),
        r is Some ==> levels_from(*ev, key@, r->0@),
{
    let g = ev.get(key);
    if g.is_none() {
        return None;
    }
    let v = g.unwrap();
    assert(json_get(*ev, key@) == Some(*v));
    match v {
        JsonValue::Array(a) => {
            let mut out: Vec<OrderBookLevel> = Vec::new();
            let mut i: usize = 0;
            assert(json_get(*ev, key@) == Some(JsonValue::Array(*a)));
            while i < a.len()
                invariant
                    json_get(*ev, key@) == Some(JsonValue::Array(*a)),
                    i <= a@.len(),
                    out@.len() == i,
                    forall|k: int|
                        0 <= k < i ==> level_of(a@[k]) == Some(
                            (#[trigger] out@[k].price as int, out@[k].quantity as int),
                        ),
                decreases a@.len() - i,
            {
                match convert_level(&a[i]) {
                    Some(l) => out.push(l),
                    None => {
                        assert(level_of(a@[i as int]) is None);
                        return None;
                    },
                }
                i = i + 1;
            }
            assert forall|k: int| 0 <= k < a@.len() implies (#[trigger] level_of(a@[k])) is Some by {
                assert(level_of(a@[k]) == Some((out@[k].price as int, out@[k].quantity as int)));
            }
            Some(out)
        },
        _ => None,
    }
}

fn is_sell_text(t: &String) -> (r: bool)
    ensures
        r == (t@.len() == "sell"@.len() && forall|i: int|
            0 <= i < t@.len() ==> #[trigger] t@[i] == "sell"@[i] || t@[i] == "SELL"@[i]),
{
    let cs = chars_of(t.as_str());
    let lower = chars_of("sell");
    let upper = chars_of("SELL");
    proof {
        reveal_strlit("sell");
        reveal_strlit("SELL");
    }
    if cs.len() != lower.len() {
        return false;
    }
    let mut i: usize = 0;
    while i < cs.len()
        invariant
            cs@ == t@,
            lower@ == "sell"@,
            upper@ == "SELL"@,
            cs@.len() == lower@.len(),
            lower@.len() == upper@.len(),
            i <= cs@.len(),
            forall|k: int| 0 <= k < i ==> #[trigger] cs@[k] == lower@[k] || cs@[k] == upper@[k],
        decreases cs@.len() - i,
    {
        if cs[i] != lower[i] && cs[i] != upper[i] {
            return false;
        }
        i = i + 1;
    }
    true
}

impl DataParser {
    /// Reads a Binance frame, combined-stream or plain, into a canonical record.
    pub fn parse_binance_message(data: &[u8]) -> (r: Result<ParsedData, CryptoFeederError>)
        ensures
            binance_outcome(data@, r, "BinanceSpot"@, "BinanceFutures"@),
    {
        let root = match parse_json(data) {
            Some(v) => v,
            None => {
                return Err(CryptoFeederError::JsonParseError(ParseError::InvalidJson));
            },
        };
        let ev: &JsonValue = match root.get("data") {
            Some(d) => d,
            None => &root,
        };
        let e = match text_member(ev, "e") {
            Some(e) => e,
            None => {
                return Err(CryptoFeederError::JsonParseError(ParseError::MissingEventType));
            },
        };
        let malformed = CryptoFeederError::JsonParseError(ParseError::MalformedEvent);
        if same_text(e, "trade") {
            match convert_trade(ev, true, "BinanceSpot") {
                Some(t) => Ok(ParsedData::Trade(t)),
                None => Err(malformed),
            }
        } else if same_text(e, "aggTrade") {
            match convert_trade(ev, false, "BinanceFutures") {
                Some(t) => {
                    let symbol = t.symbol.clone();
                    let exchange = "BinanceFutures".to_owned();
                    let exchange_timestamp = t.timestamp;
                    let mut trades = Vec::new();
                    trades.push(t);
                    Ok(ParsedData::TradeBatch(StandardizedTradeBatch { symbol, exchange, exchange_timestamp, trades }))
                },
                None => Err(malformed),
            }
        } else if same_text(e, "depthUpdate") {
            let ts = time_member_exec(ev, "E");
            let sym = symbol_member_exec(ev);
            let first = uint_member(ev, "U");
            let last = uint_member(ev, "u");
            let bids = convert_levels(ev, "b");
            let asks = convert_levels(ev, "a");
            if first.is_none() || last.is_none() {
                return Err(malformed);
            }
            match (ts, sym, bids, asks) {
                (Some(timestamp), Some(symbol), Some(bids), Some(asks)) => Ok(
                    ParsedData::OrderBook(
                        StandardizedOrderBookUpdate {
                            symbol,
                            exchange: "BinanceSpot".to_owned(),
                            bids,
                            asks,
                            timestamp,
                        },
                    ),
                ),
                _ => Err(malformed),
            }
        } else if same_text(e, "markPriceUpdate") {
            let sym = symbol_member_exec(ev);
            let mark = scaled_member(ev, "p");
            let index = scaled_member(ev, "i");
            let funding = scaled_member(ev, "r");
            let ts = optional_time_exec(ev);
            match (sym, mark, index, funding, ts) {
                (Some(symbol), Some(mark), Some(index), Some(funding), Some(timestamp)) => {
                    let mut items: Vec<ParsedData> = Vec::new();
                    items.push(
                        ParsedData::IndexPrice {
                            symbol: symbol.clone(),
                            exchange: "BinanceFutures".to_owned(),
                            value: index,
                            timestamp,
                        },
                    );
                    items.push(
                        ParsedData::MarkPrice {
                            symbol: symbol.clone(),
                            exchange: "BinanceFutures".to_owned(),
                            value: mark,
                            timestamp,
                        },
                    );
                    items.push(
                        ParsedData::FundingRate {
                            symbol,
                            exchange: "BinanceFutures".to_owned(),
                            value: funding,
                            timestamp,
                        },
                    );
                    Ok(ParsedData::Multi(items))
                },
                _ => Err(malformed),
            }
        } else if same_text(e, "forceOrder") {
            let o = match ev.get("o") {
                Some(o) => o,
                None => {
                    return Err(malformed);
                },
            };
            let sym = symbol_member_exec(o);
            let ts = optional_time_exec(ev);
            let price_text = match o.get("ap") {
                Some(x) => x.as_str(),
                None => match o.get("p") {
                    Some(x) => x.as_str(),
                    None => None,
                },
            };
            let price = match price_text {
                Some(t) => match parse_scaled(t.as_str()) {
                    Some(v) => v,
                    None => 0,
                },
                None => 0,
            };
            let quantity = match scaled_member(o, "q") {
                Some(v) => v,
                None => 0,
            };
            let is_sell = match text_member(o, "S") {
                Some(side) => is_sell_text(side),
                None => false,
            };
            match (sym, ts) {
                (Some(symbol), Some(timestamp)) => Ok(
                    ParsedData::Liquidation {
                        symbol,
                        exchange: "BinanceFutures".to_owned(),
                        price,
                        quantity,
                        is_sell,
                        timestamp,
                    },
                ),
                _ => Err(malformed),
            }
        } else {
            Err(CryptoFeederError::JsonParseError(ParseError::UnsupportedEvent))
        }
    }
}


/// `b` is `a` under venue tag `v`.
pub open spec fn trade_revenued(a: StandardizedTrade, b: StandardizedTrade, v: Seq<char>) -> bool {
    &&& b.symbol@ == a.symbol@
    &&& b.exchange@ == v
    &&& b.price == a.price
    &&& b.quantity == a.quantity
    &&& b.is_buyer_taker == a.is_buyer_taker
    &&& b.timestamp == a.timestamp
}

/// `b` is the record `a` under venue tag `v`; a nested batch becomes empty.
pub open spec fn record_revenued(a: ParsedData, b: ParsedData, v: Seq<char>) -> bool {
    match (a, b) {
        (ParsedData::Trade(x), ParsedData::Trade(y)) => trade_revenued(x, y, v),
        (ParsedData::TradeBatch(x), ParsedData::TradeBatch(y)) => {
            &&& y.symbol@ == x.symbol@
            &&& y.exchange@ == v
            &&& y.exchange_timestamp == x.exchange_timestamp
            &&& y.trades@.len() == x.trades@.len()
            &&& forall|i: int|
                0 <= i < x.trades@.len() ==> trade_revenued(
                    x.trades@[i],
                    #[trigger] y.trades@[i],
                    v,
                )
        },
        (ParsedData::OrderBook(x), ParsedData::OrderBook(y)) => {
            &&& y.symbol@ == x.symbol@
            &&& y.exchange@ == v
            &&& y.bids@ == x.bids@
            &&& y.asks@ == x.asks@
            &&& y.timestamp == x.timestamp
        },
        (
            ParsedData::IndexPrice { symbol: s1, exchange: _, value: v1, timestamp: t1 },
            ParsedData::IndexPrice { symbol: s2, exchange: e2, value: v2, timestamp: t2 },
        ) => s2@ == s1@ && e2@ == v && v2 == v1 && t2 == t1,
        (
            ParsedData::MarkPrice { symbol: s1, exchange: _, value: v1, timestamp: t1 },
            ParsedData::MarkPrice { symbol: s2, exchange: e2, value: v2, timestamp: t2 },
        ) => s2@ == s1@ && e2@ == v && v2 == v1 && t2 == t1,
        (
            ParsedData::FundingRate { symbol: s1, exchange: _, value: v1, timestamp: t1 },
            ParsedData::FundingRate { symbol: s2, exchange: e2, value: v2, timestamp: t2 },
        ) => s2@ == s1@ && e2@ == v && v2 == v1 && t2 == t1,
        (
            ParsedData::Liquidation {
                symbol: s1,
                exchange: _,
                price: pr1,
                quantity: q1,
                is_sell: b1,
                timestamp: t1,
            },
            ParsedData::Liquidation {
                symbol: s2,
                exchange: e2,
                price: pr2,
                quantity: q2,
                is_sell: b2,
                timestamp: t2,
            },
        ) => s2@ == s1@ && e2@ == v && pr2 == pr1 && q2 == q1 && b2 == b1 && t2 == t1,
        (ParsedData::Multi(_), ParsedData::Multi(y)) => y@.len() == 0,
        _ => false,
    }
}

/// `b` is `a` with every record under venue tag `v`.
pub open spec fn revenued(a: ParsedData, b: ParsedData, v: Seq<char>) -> bool {
    match (a, b) {
        (ParsedData::Multi(x), ParsedData::Multi(y)) => {
            &&& y@.len() == x@.len()
            &&& forall|i: int| 0 <= i < x@.len() ==> record_revenued(x@[i], #[trigger] y@[i], v)
        },
        (ParsedData::Multi(_), _) => false,
        _ => record_revenued(a, b, v),
    }
}

/// The venue tag of every record in `d` is `v`.
pub open spec fn record_venue_is(d: ParsedData, v: Seq<char>) -> bool {
    match d {
        ParsedData::Trade(t) => t.exchange@ == v,
        ParsedData::TradeBatch(b) => b.exchange@ == v && forall|i: int|
            0 <= i < b.trades@.len() ==> (#[trigger] b.trades@[i]).exchange@ == v,
        ParsedData::OrderBook(ob) => ob.exchange@ == v,
        ParsedData::IndexPrice { exchange, .. } => exchange@ == v,
        ParsedData::MarkPrice { exchange, .. } => exchange@ == v,
        ParsedData::FundingRate { exchange, .. } => exchange@ == v,
        ParsedData::Liquidation { exchange, .. } => exchange@ == v,
        ParsedData::Multi(items) => items@.len() == 0,
    }
}

pub open spec fn venue_is(d: ParsedData, v: Seq<char>) -> bool {
    match d {
        ParsedData::Multi(items) => forall|i: int|
            0 <= i < items@.len() ==> record_venue_is(#[trigger] items@[i], v),
        _ => record_venue_is(d, v),
    }
}

fn trade_with_venue(t: &StandardizedTrade, venue: &str) -> (r: StandardizedTrade)
    ensures
        trade_revenued(*t, r, venue@),
{
    StandardizedTrade {
        symbol: t.symbol.clone(),
        exchange: venue.to_owned(),
        price: t.price,
        quantity: t.quantity,
        is_buyer_taker: t.is_buyer_taker,
        timestamp: t.timestamp,
    }
}

fn levels_copy(v: &Vec<OrderBookLevel>) -> (r: Vec<OrderBookLevel>)
    ensures
        r@ == v@,
{
    let mut out: Vec<OrderBookLevel> = Vec::new();
    let mut i: usize = 0;
    while i < v.len()
        invariant
            i <= v@.len(),
            out@ == v@.take(i as int),
        decreases v@.len() - i,
    {
        out.push(v[i]);
        assert(v@.take(i + 1) =~= v@.take(i as int).push(v@[i as int]));
        i = i + 1;
    }
    assert(v@.take(v@.len() as int) =~= v@);
    out
}

fn record_with_venue(d: &ParsedData, venue: &str) -> (r: ParsedData)
    ensures
        record_revenued(*d, r, venue@),
        record_venue_is(r, venue@),
{
    match d {
        ParsedData::Trade(t) => ParsedData::Trade(trade_with_venue(t, venue)),
        ParsedData::TradeBatch(b) => {
            let mut trades: Vec<StandardizedTrade> = Vec::new();
            let mut i: usize = 0;
            while i < b.trades.len()
                invariant
                    i <= b.trades@.len(),
                    trades@.len() == i,
                    forall|k: int|
                        0 <= k < i ==> trade_revenued(b.trades@[k], #[trigger] trades@[k], venue@),
                decreases b.trades@.len() - i,
            {
                trades.push(trade_with_venue(&b.trades[i], venue));
                i = i + 1;
            }
            ParsedData::TradeBatch(
                StandardizedTradeBatch {
                    symbol: b.symbol.clone(),
                    exchange: venue.to_owned(),
                    exchange_timestamp: b.exchange_timestamp,
                    trades,
                },
            )
        },
        ParsedData::OrderBook(ob) => ParsedData::OrderBook(
            StandardizedOrderBookUpdate {
                symbol: ob.symbol.clone(),
                exchange: venue.to_owned(),
                bids: levels_copy(&ob.bids),
                asks: levels_copy(&ob.asks),
                timestamp: ob.timestamp,
            },
        ),
        ParsedData::IndexPrice { symbol, value, timestamp, .. } => ParsedData::IndexPrice {
            symbol: symbol.clone(),
            exchange: venue.to_owned(),
            value: *value,
            timestamp: *timestamp,
        },
        ParsedData::MarkPrice { symbol, value, timestamp, .. } => ParsedData::MarkPrice {
            symbol: symbol.clone(),
            exchange: venue.to_owned(),
            value: *value,
            timestamp: *timestamp,
        },
        ParsedData::FundingRate { symbol, value, timestamp, .. } => ParsedData::FundingRate {
            symbol: symbol.clone(),
            exchange: venue.to_owned(),
            value: *value,
            timestamp: *timestamp,
        },
        ParsedData::Liquidation { symbol, price, quantity, is_sell, timestamp, .. } =>
            ParsedData::Liquidation {
            symbol: symbol.clone(),
            exchange: venue.to_owned(),
            price: *price,
            quantity: *quantity,
            is_sell: *is_sell,
            timestamp: *timestamp,
        },
        ParsedData::Multi(_) => ParsedData::Multi(Vec::new()),
    }
}

/// The record with every venue tag replaced by `venue`.
pub fn set_venue(d: &ParsedData, venue: &str) -> (r: ParsedData)
    ensures
        revenued(*d, r, venue@),
        venue_is(r, venue@),
{
    match d {
        ParsedData::Multi(items) => {
            let mut out: Vec<ParsedData> = Vec::new();
            let mut i: usize = 0;
            while i < items.len()
                invariant
                    i <= items@.len(),
                    out@.len() == i,
                    forall|k: int|
                        0 <= k < i ==> record_revenued(items@[k], #[trigger] out@[k], venue@)
                            && record_venue_is(out@[k], venue@),
                decreases items@.len() - i,
            {
                out.push(record_with_venue(&items[i], venue));
                i = i + 1;
            }
            ParsedData::Multi(out)
        },
        _ => record_with_venue(d, venue),
    }
}

/// A record that is read under venue tags `s` and `f` and then moved to `v` is the
/// record read under `v` alone.
proof fn lemma_event_record_revenued(
    ev: JsonValue,
    e: Seq<char>,
    a: ParsedData,
    b: ParsedData,
    s: Seq<char>,
    f: Seq<char>,
    v: Seq<char>,
)
    requires
        event_record(ev, e, a, s, f),
        revenued(a, b, v),
    ensures
        event_record(ev, e, b, v, v),
{
    if e == "markPriceUpdate"@ {
        match (a, b) {
            (ParsedData::Multi(x), ParsedData::Multi(y)) => {
                assert(record_revenued(x@[0], y@[0], v));
                assert(record_revenued(x@[1], y@[1], v));
                assert(record_revenued(x@[2], y@[2], v));
            },
            _ => {},
        }
    } else if e == "aggTrade"@ {
        match (a, b) {
            (ParsedData::TradeBatch(x), ParsedData::TradeBatch(y)) => {
                assert(trade_revenued(x.trades@[0], y.trades@[0], v));
            },
            _ => {},
        }
    }
}

/// The first parser registered under `name`.
pub open spec fn parser_lookup(parsers: Seq<(String, VenueParser)>, name: Seq<char>) -> Option<VenueParser>
    decreases parsers.len(),
{
    if parsers.len() == 0 {
        None
    } else if parsers[0].0@ == name {
        Some(parsers[0].1)
    } else {
        parser_lookup(parsers.drop_first(), name)
    }
}

/// The placeholder trade that venues without a parser of their own produce.
pub open spec fn placeholder_trade(d: ParsedData, venue: Seq<char>) -> bool {
    match d {
        ParsedData::Trade(t) => {
            &&& t.symbol@ == "UNKNOWN^USDT"@
            &&& t.exchange@ == venue
            &&& t.price == 0
            &&& t.quantity == 0
            &&& !t.is_buyer_taker
        },
        _ => false,
    }
}

/// The parser for venue display names that start with `Binance`; the default one
/// otherwise.
pub open spec fn parser_for_name(name: Seq<char>) -> VenueParser {
    if crate::text::has_prefix(name, "Binance"@) {
        VenueParser::Binance
    } else {
        VenueParser::Default
    }
}

fn starts_with_text(s: &String, prefix: &str) -> (r: bool)
    ensures
        r == (s@.len() >= prefix@.len() && s@.take(prefix@.len() as int) == prefix@),
{
    let cs = chars_of(s.as_str());
    let ps = chars_of(prefix);
    if ps.len() > cs.len() {
        return false;
    }
    let mut i: usize = 0;
    while i < ps.len()
        invariant
            cs@ == s@,
            ps@ == prefix@,
            ps@.len() <= cs@.len(),
            i <= ps@.len(),
            forall|k: int| 0 <= k < i ==> cs@[k] == ps@[k],
        decreases ps@.len() - i,
    {
        if cs[i] != ps[i] {
            assert(cs@.take(ps@.len() as int)[i as int] != ps@[i as int]);
            return false;
        }
        i = i + 1;
    }
    assert(cs@.take(ps@.len() as int) =~= ps@);
    true
}

impl DataParser {
    /// A parser that knows the `binance` venue.
    pub fn new() -> (r: Self)
        ensures
            parser_lookup(r.parsers@, "binance"@) == Some(VenueParser::Binance),
            r.parsers@.len() == 1,
            r.parsers@[0].0@ == "binance"@,
            r.parsers@[0].1 == VenueParser::Binance,
    {
        let mut parsers: Vec<(String, VenueParser)> = Vec::new();
        parsers.push(("binance".to_owned(), VenueParser::Binance));
        DataParser { parsers }
    }

    /// Registers `parser` under `name`, replacing an earlier registration.
    pub fn register(&mut self, name: String, parser: VenueParser)
        ensures
            parser_lookup(final(self).parsers@, name@) == Some(parser),
            forall|n: Seq<char>|
                n != name@ ==> #[trigger] parser_lookup(final(self).parsers@, n) == parser_lookup(
                    old(self).parsers@,
                    n,
                ),
    {
        let mut i: usize = 0;
        let ghost ps = self.parsers@;
        assert(ps.skip(0) =~= ps);
        while i < self.parsers.len()
            invariant
                self.parsers@ == ps,
                ps == old(self).parsers@,
                i <= ps.len(),
                forall|k: int| 0 <= k < i ==> ps[k].0@ != name@,
            decreases ps.len() - i,
        {
            if self.parsers[i].0 == name {
                let key = self.parsers[i].0.clone();
                self.parsers.set(i, (key, parser));
                proof {
                    let ns = self.parsers@;
                    lemma_lookup_update(ps, ns, i as int, name@, name@, parser);
                    assert forall|n: Seq<char>| n != name@ implies #[trigger] parser_lookup(ns, n)
                        == parser_lookup(ps, n) by {
                        lemma_lookup_update(ps, ns, i as int, n, name@, parser);
                    }
                }
                return;
            }
            i = i + 1;
        }
        self.parsers.push((name, parser));
        proof {
            let ns = self.parsers@;
            lemma_lookup_push(ps, name@, name@, parser, ns);
            assert forall|n: Seq<char>| n != name@ implies #[trigger] parser_lookup(ns, n)
                == parser_lookup(ps, n) by {
                lemma_lookup_push(ps, n, name@, parser, ns);
            }
        }
    }

    /// The parser registered under `exchange`.
    pub fn parser_of(&self, exchange: &str) -> (r: Option<VenueParser>)
        ensures
            r == parser_lookup(self.parsers@, exchange@),
    {
        let mut i: usize = 0;
        let ghost ps = self.parsers@;
        assert(ps.skip(0) =~= ps);
        while i < self.parsers.len()
            invariant
                self.parsers@ == ps,
                i <= ps.len(),
                parser_lookup(ps, exchange@) == parser_lookup(ps.skip(i as int), exchange@),
            decreases ps.len() - i,
        {
            assert(ps.skip(i as int).drop_first() =~= ps.skip(i + 1));
            if same_text(&self.parsers[i].0, exchange) {
                assert(ps.skip(i as int)[0] == ps[i as int]);
                return Some(self.parsers[i].1);
            }
            i = i + 1;
        }
        None
    }

    /// Reads frames of venues without a parser of their own: a placeholder trade.
    fn parse_default_message(venue: &str) -> (r: ParsedData)
        ensures
            placeholder_trade(r, venue@),
    {
        ParsedData::Trade(
            StandardizedTrade {
                symbol: "UNKNOWN^USDT".to_owned(),
                exchange: venue.to_owned(),
                price: 0,
                quantity: 0,
                is_buyer_taker: false,
                timestamp: now_nanos(),
            },
        )
    }

    /// Normalizes a frame of venue `exchange`; every record carries `exchange` as its
    /// venue tag.
    pub fn parse_message(&self, exchange: &str, data: Vec<u8>) -> (r: Result<
        ParsedData,
        CryptoFeederError,
    >)
        ensures
            match parser_lookup(self.parsers@, exchange@) {
                None => r == Err::<ParsedData, _>(
                    CryptoFeederError::JsonParseError(ParseError::UnsupportedExchange),
                ),
                Some(VenueParser::Binance) => binance_outcome(data@, r, exchange@, exchange@),
                Some(VenueParser::Default) => r is Ok && placeholder_trade(r->Ok_0, exchange@),
            },
            r is Ok ==> venue_is(r->Ok_0, exchange@),
    {
        match self.parser_of(exchange) {
            None => Err(CryptoFeederError::JsonParseError(ParseError::UnsupportedExchange)),
            Some(VenueParser::Binance) => {
                let parsed = DataParser::parse_binance_message(data.as_slice());
                match parsed {
                    Ok(d) => {
                        let r = set_venue(&d, exchange);
                        proof {
                            let root = json_of(data@)->0;
                            let ev = event_of(root);
                            let e = as_text(json_get(ev, "e"@))->0;
                            lemma_event_record_revenued(ev, e, d, r, "BinanceSpot"@, "BinanceFutures"@, exchange@);
                        }
                        Ok(r)
                    },
                    Err(e) => Err(e),
                }
            },
            Some(VenueParser::Default) => {
                let d = DataParser::parse_default_message(exchange);
                Ok(d)
            },
        }
    }
}

proof fn lemma_lookup_update(
    ps: Seq<(String, VenueParser)>,
    ns: Seq<(String, VenueParser)>,
    i: int,
    n: Seq<char>,
    name: Seq<char>,
    p: VenueParser,
)
    requires
        0 <= i < ps.len(),
        ns.len() == ps.len(),
        ps[i].0@ == name,
        ns[i].0@ == name,
        ns[i].1 == p,
        forall|k: int| 0 <= k < ps.len() && k != i ==> ns[k] == ps[k],
        forall|k: int| 0 <= k < i ==> ps[k].0@ != name,
    ensures
        parser_lookup(ns, n) == (if n == name { Some(p) } else { parser_lookup(ps, n) }),
    decreases i,
{
    if i == 0 {
        assert(ns.drop_first() =~= ps.drop_first());
    } else {
        assert(ns[0] == ps[0]);
        if ps[0].0@ != n {
            let a = ps.drop_first();
            let b = ns.drop_first();
            assert forall|k: int| 0 <= k < a.len() && k != i - 1 implies b[k] == a[k] by {
                assert(b[k] == ns[k + 1]);
                assert(a[k] == ps[k + 1]);
            }
            lemma_lookup_update(a, b, i - 1, n, name, p);
        }
    }
}

proof fn lemma_lookup_push(
    ps: Seq<(String, VenueParser)>,
    n: Seq<char>,
    name: Seq<char>,
    p: VenueParser,
    ns: Seq<(String, VenueParser)>,
)
    requires
        ns.len() == ps.len() + 1,
        forall|k: int| 0 <= k < ps.len() ==> ns[k] == ps[k],
        ns[ps.len() as int].0@ == name,
        ns[ps.len() as int].1 == p,
        forall|k: int| 0 <= k < ps.len() ==> ps[k].0@ != name,
    ensures
        parser_lookup(ns, n) == (if n == name { Some(p) } else { parser_lookup(ps, n) }),
    decreases ps.len(),
{
    if ps.len() == 0 {
        assert(ns.drop_first().len() == 0);
        assert(parser_lookup(ns.drop_first(), n) is None);
    } else {
        assert(ns[0] == ps[0]);
        if ps[0].0@ != n {
            lemma_lookup_push(ps.drop_first(), n, name, p, ns.drop_first());
        }
    }
}


/// The parser registered for `n` by `new_with_config`.
pub open spec fn configured_parser(names: Option<Seq<Seq<char>>>, n: Seq<char>) -> Option<VenueParser> {
    if names is Some && names->0.contains(n) {
        Some(parser_for_name(n))
    } else if n == "binance"@ {
        Some(VenueParser::Binance)
    } else {
        None
    }
}

/// The venue names of a configuration's symbols file, when it has one.
pub open spec fn configured_names(config: Option<&crate::config::Config>) -> Option<Seq<Seq<char>>> {
    match config {
        Some(c) => match c.symbol_config {
            Some(sc) => Some(crate::assoc::assoc_keys(sc.exchanges@)),
            None => None,
        },
        None => None,
    }
}

impl DataParser {
    /// A parser that knows `binance` and every venue of the configuration's symbols
    /// file: the Binance parser for names that start with `Binance`, the default
    /// parser for the others.
    pub fn new_with_config(config: Option<&crate::config::Config>) -> (r: Self)
        ensures
            forall|n: Seq<char>|
                #[trigger] parser_lookup(r.parsers@, n) == configured_parser(configured_names(config), n),
    {
        let mut p = DataParser::new();
        assert forall|n: Seq<char>| n != "binance"@ implies #[trigger] parser_lookup(p.parsers@, n) is None by {
            assert(p.parsers@[0].0@ != n);
            assert(p.parsers@.drop_first().len() == 0);
            assert(parser_lookup(p.parsers@.drop_first(), n) is None);
        }
        match config {
            Some(c) => match &c.symbol_config {
                Some(sc) => {
                    let names = sc.get_exchange_names();
                    let ghost keys = crate::assoc::assoc_keys(sc.exchanges@);
                    let mut i: usize = 0;
                    while i < names.len()
                        invariant
                            names@.map_values(|x: String| x@) == keys,
                            i <= names@.len(),
                            forall|n: Seq<char>|
                                #[trigger] parser_lookup(p.parsers@, n) == (if keys.take(i as int).contains(n) {
                                    Some(parser_for_name(n))
                                } else if n == "binance"@ {
                                    Some(VenueParser::Binance)
                                } else {
                                    None
                                }),
                        decreases names@.len() - i,
                    {
                        let name = names[i].clone();
                        let kind = if starts_with_text(&name, "Binance") {
                            VenueParser::Binance
                        } else {
                            VenueParser::Default
                        };
                        let ghost nm = name@;
                        assert(nm == keys[i as int]);
                        p.register(name, kind);
                        proof {
                            assert(keys.take(i + 1) =~= keys.take(i as int).push(nm));
                            assert forall|n: Seq<char>| #[trigger] parser_lookup(p.parsers@, n) == (if keys.take(i + 1).contains(n) {
                                Some(parser_for_name(n))
                            } else if n == "binance"@ {
                                Some(VenueParser::Binance)
                            } else {
                                None
                            }) by {
                                if n != nm {
                                    assert(keys.take(i + 1).contains(n) == keys.take(i as int).contains(n));
                                } else {
                                    assert(keys.take(i + 1)[i as int] == nm);
                                    assert(keys.take(i + 1).contains(n));
                                }
                            }
                        }
                        i = i + 1;
                    }
                    assert(keys.take(names@.len() as int) =~= keys);
                },
                None => {},
            },
            None => {},
        }
        p
    }
}

} // verus!
