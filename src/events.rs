//! Operational events and their 16-byte payloads.

use vstd::prelude::*;
use crate::protocol::{le_bytes, push_le};
use crate::text::{to_lower, lower_of};
use crate::json::same_text;
use vstd::string::StringSliceAdditionalSpecFns;

verus! {

pub const MESSAGE_TYPE_SYSTEM_HEARTBEAT: u8 = 100;
pub const MESSAGE_TYPE_CONNECTION_STATUS: u8 = 101;
pub const MESSAGE_TYPE_SUBSCRIPTION_STATUS: u8 = 102;
pub const MESSAGE_TYPE_SYSTEM_STATS: u8 = 103;
pub const MESSAGE_TYPE_ERROR_EVENT: u8 = 104;

pub const EXCHANGE_ID_BINANCE: u16 = 1;
pub const EXCHANGE_ID_OKX: u16 = 2;
pub const EXCHANGE_ID_BYBIT: u16 = 3;
pub const EXCHANGE_ID_UPBIT: u16 = 4;
pub const EXCHANGE_ID_BITHUMB: u16 = 5;
pub const EXCHANGE_ID_COINBASE: u16 = 6;

pub const CONNECTION_STATUS_DISCONNECTED: u8 = 0;
pub const CONNECTION_STATUS_CONNECTING: u8 = 1;
pub const CONNECTION_STATUS_CONNECTED: u8 = 2;
pub const CONNECTION_STATUS_RECONNECTING: u8 = 3;
pub const CONNECTION_STATUS_FAILED: u8 = 4;

pub const EVENT_PAYLOAD_SIZE: usize = 16;

#[derive(Debug, Clone, Copy)]
pub struct SystemHeartbeat {
    pub uptime_seconds: u64,
    pub active_connections: u32,
    pub total_packets_sent: u32,
}

#[derive(Debug, Clone, Copy)]
pub struct ConnectionStatus {
    pub exchange_id: u16,
    pub previous_status: u8,
    pub current_status: u8,
    pub retry_count: u32,
    pub error_code: u64,
}

#[derive(Debug, Clone, Copy)]
pub struct SubscriptionStatus {
    pub exchange_id: u16,
    pub subscription_type: u8,
    pub status: u8,
    pub symbol_short: [u8; 12],
}

#[derive(Debug, Clone, Copy)]
pub struct SystemStats {
    pub cpu_usage_percent: u32,
    pub memory_usage_mb: u32,
    pub packets_per_second: u32,
    pub bytes_per_second: u32,
}

#[derive(Debug, Clone, Copy)]
pub struct ErrorEvent {
    pub error_type: u32,
    pub exchange_id: u16,
    pub severity: u16,
    pub error_details: u64,
}

#[derive(Debug, Clone, Copy)]
pub enum SystemEvent {
    Heartbeat(SystemHeartbeat),
    ConnectionStatus(ConnectionStatus),
    SubscriptionStatus(SubscriptionStatus),
    SystemStats(SystemStats),
    ErrorEvent(ErrorEvent),
}

/// The 16 payload bytes of an event, fields in declaration order, little-endian.
pub open spec fn payload_bytes(e: SystemEvent) -> Seq<u8> {
    match e {
        SystemEvent::Heartbeat(h) => le_bytes(h.uptime_seconds, 8) + le_bytes(
            h.active_connections as u64,
            4,
        ) + le_bytes(h.total_packets_sent as u64, 4),
        SystemEvent::ConnectionStatus(c) => le_bytes(c.exchange_id as u64, 2) + seq![
            c.previous_status,
            c.current_status,
        ] + le_bytes(c.retry_count as u64, 4) + le_bytes(c.error_code, 8),
        SystemEvent::SubscriptionStatus(s) => le_bytes(s.exchange_id as u64, 2) + seq![
            s.subscription_type,
            s.status,
        ] + s.symbol_short@,
        SystemEvent::SystemStats(s) => le_bytes(s.cpu_usage_percent as u64, 4) + le_bytes(
            s.memory_usage_mb as u64,
            4,
        ) + le_bytes(s.packets_per_second as u64, 4) + le_bytes(s.bytes_per_second as u64, 4),
        SystemEvent::ErrorEvent(x) => le_bytes(x.error_type as u64, 4) + le_bytes(
            x.exchange_id as u64,
            2,
        ) + le_bytes(x.severity as u64, 2) + le_bytes(x.error_details, 8),
    }
}

pub open spec fn event_message_type(e: SystemEvent) -> u8 {
    match e {
        SystemEvent::Heartbeat(_) => MESSAGE_TYPE_SYSTEM_HEARTBEAT,
        SystemEvent::ConnectionStatus(_) => MESSAGE_TYPE_CONNECTION_STATUS,
        SystemEvent::SubscriptionStatus(_) => MESSAGE_TYPE_SUBSCRIPTION_STATUS,
        SystemEvent::SystemStats(_) => MESSAGE_TYPE_SYSTEM_STATS,
        SystemEvent::ErrorEvent(_) => MESSAGE_TYPE_ERROR_EVENT,
    }
}

/// Text that `String::from_utf8_lossy` makes of a byte string.
pub uninterp spec fn lossy_text(b: Seq<u8>) -> Seq<char>;

/// Relies on `String::from_utf8_lossy`: the text depends on the bytes alone.
#[verifier::external_body]
pub(crate) fn text_from_bytes(b: &[u8]) -> (r: String)
    ensures
        r@ == lossy_text(b@),
{
    String::from_utf8_lossy(b).to_string()
}

/// The bytes before the first NUL.
pub open spec fn until_nul(b: Seq<u8>) -> Seq<u8>
    decreases b.len(),
{
    if b.len() == 0 {
        b
    } else if b[0] == 0 {
        Seq::empty()
    } else {
        seq![b[0]] + until_nul(b.drop_first())
    }
}

/// The bytes of `b` before its first NUL.
pub fn bytes_until_nul(b: &[u8]) -> (r: Vec<u8>)
    ensures
        r@ == until_nul(b@),
{
    let mut bytes: Vec<u8> = Vec::new();
    let mut i: usize = 0;
    let n = b.len();
    let ghost s = b@;
    assert(s.skip(0) =~= s);
    assert(bytes@ + until_nul(s.skip(0)) =~= until_nul(s));
    while i < n && b[i] != 0
        invariant
            s == b@,
            n == s.len(),
            i <= n,
            bytes@ == s.take(i as int),
            until_nul(s) == bytes@ + until_nul(s.skip(i as int)),
        decreases n - i,
    {
        proof {
            assert(s.skip(i as int).drop_first() =~= s.skip(i + 1));
            assert(s.skip(i as int)[0] == s[i as int]);
            assert(s.take(i + 1) =~= s.take(i as int).push(s[i as int]));
            assert(bytes@ + until_nul(s.skip(i as int)) =~= bytes@.push(s[i as int]) + until_nul(
                s.skip(i + 1),
            ));
        }
        bytes.push(b[i]);
        i = i + 1;
    }
    proof {
        if i < n {
            assert(s.skip(i as int)[0] == 0);
        } else {
            assert(s.skip(i as int).len() == 0);
        }
        assert(until_nul(s) =~= bytes@);
    }
    bytes
}

/// The lower-case name of a venue id; `unknown` for other ids.
pub open spec fn exchange_name_of(id: u16) -> Seq<char> {
    if id == EXCHANGE_ID_BINANCE {
        "binance"@
    } else if id == EXCHANGE_ID_OKX {
        "okx"@
    } else if id == EXCHANGE_ID_BYBIT {
        "bybit"@
    } else if id == EXCHANGE_ID_UPBIT {
        "upbit"@
    } else if id == EXCHANGE_ID_BITHUMB {
        "bithumb"@
    } else if id == EXCHANGE_ID_COINBASE {
        "coinbase"@
    } else {
        "unknown"@
    }
}

/// The id of a lower-case venue name; 0 for other names.
pub open spec fn exchange_id_of(lower: Seq<char>) -> u16 {
    if lower == "binance"@ {
        EXCHANGE_ID_BINANCE
    } else if lower == "okx"@ {
        EXCHANGE_ID_OKX
    } else if lower == "bybit"@ {
        EXCHANGE_ID_BYBIT
    } else if lower == "upbit"@ {
        EXCHANGE_ID_UPBIT
    } else if lower == "bithumb"@ {
        EXCHANGE_ID_BITHUMB
    } else if lower == "coinbase"@ {
        EXCHANGE_ID_COINBASE
    } else {
        0
    }
}

/// The venue id for a name, compared in lower case.
pub fn exchange_name_to_id(name: &str) -> (r: u16)
    ensures
        r == exchange_id_of(lower_of(name@)),
{
    let lower = to_lower(name);
    if same_text(&lower, "binance") {
        EXCHANGE_ID_BINANCE
    } else if same_text(&lower, "okx") {
        EXCHANGE_ID_OKX
    } else if same_text(&lower, "bybit") {
        EXCHANGE_ID_BYBIT
    } else if same_text(&lower, "upbit") {
        EXCHANGE_ID_UPBIT
    } else if same_text(&lower, "bithumb") {
        EXCHANGE_ID_BITHUMB
    } else if same_text(&lower, "coinbase") {
        EXCHANGE_ID_COINBASE
    } else {
        0
    }
}

impl SystemHeartbeat {
    pub fn new(uptime_seconds: u64, active_connections: u32, total_packets_sent: u32) -> (r: Self)
        ensures
            r.uptime_seconds == uptime_seconds,
            r.active_connections == active_connections,
            r.total_packets_sent == total_packets_sent,
    {
        SystemHeartbeat { uptime_seconds, active_connections, total_packets_sent }
    }
}

impl ConnectionStatus {
    pub fn new(
        exchange_id: u16,
        previous_status: u8,
        current_status: u8,
        retry_count: u32,
        error_code: u64,
    ) -> (r: Self)
        ensures
            r.exchange_id == exchange_id,
            r.previous_status == previous_status,
            r.current_status == current_status,
            r.retry_count == retry_count,
            r.error_code == error_code,
    {
        ConnectionStatus { exchange_id, previous_status, current_status, retry_count, error_code }
    }
}

impl SubscriptionStatus {
    /// Keeps at most 11 bytes of the symbol, NUL-padded to 12.
    pub fn new(exchange_id: u16, subscription_type: u8, status: u8, symbol: &str) -> (r: Self)
        ensures
            r.exchange_id == exchange_id,
            r.subscription_type == subscription_type,
            r.status == status,
            r.symbol_short@ == ({
                let b = symbol.spec_bytes();
                let n: int = if b.len() < 11 { b.len() as int } else { 11 };
                b.take(n) + Seq::new((12 - n) as nat, |i: int| 0u8)
            }),
    {
        let bytes = symbol.as_bytes();
        let n: usize = if bytes.len() < 11 { bytes.len() } else { 11 };
        let mut symbol_short = [0u8; 12];
        let mut i: usize = 0;
        while i < n
            invariant
                n <= 11,
                n <= bytes@.len(),
                i <= n,
                symbol_short@.len() == 12,
                forall|k: int| 0 <= k < i ==> symbol_short@[k] == bytes@[k],
                forall|k: int| i <= k < 12 ==> symbol_short@[k] == 0u8,
            decreases n - i,
        {
            symbol_short[i] = bytes[i];
            i = i + 1;
        }
        assert(symbol_short@ =~= bytes@.take(n as int) + Seq::new((12 - n) as nat, |i: int| 0u8));
        SubscriptionStatus { exchange_id, subscription_type, status, symbol_short }
    }
}

impl SystemStats {
    pub fn new(
        cpu_usage_percent: u32,
        memory_usage_mb: u32,
        packets_per_second: u32,
        bytes_per_second: u32,
    ) -> (r: Self)
        ensures
            r.cpu_usage_percent == cpu_usage_percent,
            r.memory_usage_mb == memory_usage_mb,
            r.packets_per_second == packets_per_second,
            r.bytes_per_second == bytes_per_second,
    {
        SystemStats { cpu_usage_percent, memory_usage_mb, packets_per_second, bytes_per_second }
    }
}

impl ErrorEvent {
    pub fn new(error_type: u32, exchange_id: u16, severity: u16, error_details: u64) -> (r: Self)
        ensures
            r.error_type == error_type,
            r.exchange_id == exchange_id,
            r.severity == severity,
            r.error_details == error_details,
    {
        ErrorEvent { error_type, exchange_id, severity, error_details }
    }
}

impl SystemEvent {
    pub fn get_message_type(&self) -> (r: u8)
        ensures
            r == event_message_type(*self),
    {
        match self {
            SystemEvent::Heartbeat(_) => MESSAGE_TYPE_SYSTEM_HEARTBEAT,
            SystemEvent::ConnectionStatus(_) => MESSAGE_TYPE_CONNECTION_STATUS,
            SystemEvent::SubscriptionStatus(_) => MESSAGE_TYPE_SUBSCRIPTION_STATUS,
            SystemEvent::SystemStats(_) => MESSAGE_TYPE_SYSTEM_STATS,
            SystemEvent::ErrorEvent(_) => MESSAGE_TYPE_ERROR_EVENT,
        }
    }

    /// The 16 payload bytes.
    pub fn get_payload_bytes(&self) -> (r: Vec<u8>)
        ensures
            r@ == payload_bytes(*self),
            r@.len() == EVENT_PAYLOAD_SIZE,
    {
        let mut v: Vec<u8> = Vec::new();
        match self {
            SystemEvent::Heartbeat(h) => {
                push_le(&mut v, h.uptime_seconds, 8);
                push_le(&mut v, h.active_connections as u64, 4);
                push_le(&mut v, h.total_packets_sent as u64, 4);
            },
            SystemEvent::ConnectionStatus(c) => {
                push_le(&mut v, c.exchange_id as u64, 2);
                v.push(c.previous_status);
                v.push(c.current_status);
                push_le(&mut v, c.retry_count as u64, 4);
                push_le(&mut v, c.error_code, 8);
            },
            SystemEvent::SubscriptionStatus(s) => {
                push_le(&mut v, s.exchange_id as u64, 2);
                v.push(s.subscription_type);
                v.push(s.status);
                let mut i: usize = 0;
                let ghost start = v@;
                while i < 12
                    invariant
                        i <= 12,
                        s.symbol_short@.len() == 12,
                        v@ == start + s.symbol_short@.take(i as int),
                    decreases 12 - i,
                {
                    v.push(s.symbol_short[i]);
                    assert(s.symbol_short@.take(i + 1) =~= s.symbol_short@.take(i as int).push(
                        s.symbol_short@[i as int],
                    ));
                    i = i + 1;
                }
                assert(s.symbol_short@.take(12) =~= s.symbol_short@);
            },
            SystemEvent::SystemStats(s) => {
                push_le(&mut v, s.cpu_usage_percent as u64, 4);
                push_le(&mut v, s.memory_usage_mb as u64, 4);
                push_le(&mut v, s.packets_per_second as u64, 4);
                push_le(&mut v, s.bytes_per_second as u64, 4);
            },
            SystemEvent::ErrorEvent(x) => {
                push_le(&mut v, x.error_type as u64, 4);
                push_le(&mut v, x.exchange_id as u64, 2);
                push_le(&mut v, x.severity as u64, 2);
                push_le(&mut v, x.error_details, 8);
            },
        }
        assert(v@ =~= payload_bytes(*self));
        v
    }

    /// The header symbol of an event: the subscription's symbol up to its first NUL,
    /// `SYSTEM` for the other kinds.
    pub fn get_symbol(&self) -> (r: String)
        ensures
            r@ == match *self {
                SystemEvent::SubscriptionStatus(s) => lossy_text(until_nul(s.symbol_short@)),
                _ => "SYSTEM"@,
            },
    {
        match self {
            SystemEvent::SubscriptionStatus(s) => {
                let bytes = bytes_until_nul(&s.symbol_short);
                text_from_bytes(bytes.as_slice())
            },
            _ => "SYSTEM".to_owned(),
        }
    }

    /// The venue name of an event: by venue id for the kinds that carry one,
    /// `FEEDER` for the others.
    pub fn get_exchange(&self) -> (r: String)
        ensures
            r@ == match *self {
                SystemEvent::ConnectionStatus(c) => exchange_name_of(c.exchange_id),
                SystemEvent::SubscriptionStatus(s) => exchange_name_of(s.exchange_id),
                SystemEvent::ErrorEvent(x) => exchange_name_of(x.exchange_id),
                _ => "FEEDER"@,
            },
    {
        let id = match self {
            SystemEvent::ConnectionStatus(c) => c.exchange_id,
            SystemEvent::SubscriptionStatus(s) => s.exchange_id,
            SystemEvent::ErrorEvent(x) => x.exchange_id,
            _ => {
                return "FEEDER".to_owned();
            },
        };
        if id == EXCHANGE_ID_BINANCE {
            "binance".to_owned()
        } else if id == EXCHANGE_ID_OKX {
            "okx".to_owned()
        } else if id == EXCHANGE_ID_BYBIT {
            "bybit".to_owned()
        } else if id == EXCHANGE_ID_UPBIT {
            "upbit".to_owned()
        } else if id == EXCHANGE_ID_BITHUMB {
            "bithumb".to_owned()
        } else if id == EXCHANGE_ID_COINBASE {
            "coinbase".to_owned()
        } else {
            "unknown".to_owned()
        }
    }
}

} // verus!
