//! Session supervisor decisions: the reconnect state machine, backoff, frame
//! handling and subscription URLs. The caller performs the I/O and reports events.

use vstd::prelude::*;
use crate::events::{
    CONNECTION_STATUS_DISCONNECTED, CONNECTION_STATUS_CONNECTING, CONNECTION_STATUS_CONNECTED,
    CONNECTION_STATUS_RECONNECTING, CONNECTION_STATUS_FAILED,
};

use crate::text::{chars_of, push_char, to_lower, lower_of, has_substring, contains_text, has_prefix, starts_with_text};
use crate::data_parser::{ends_with, ends_with_text, append_text};
use crate::config::{ExchangeEndpoint, EndpointConfig};
use crate::assoc::assoc_lookup;
use crate::errors::CryptoFeederError;

verus! {

/// Attempts after which a session gives up.
pub const MAX_RETRY_COUNT: u32 = 10;
pub const BASE_DELAY_MS: u64 = 1000;
pub const MAX_DELAY_MS: u64 = 60000;

pub open spec fn pow2(n: nat) -> nat
    decreases n,
{
    if n == 0 {
        1
    } else {
        2 * pow2((n - 1) as nat)
    }
}

/// Backoff before retry `k`: one second for `k = 0`, else `min(1000 * 2^min(k, 6), 60000)` ms.
pub open spec fn backoff_ms(k: nat) -> nat {
    if k == 0 {
        1000
    } else {
        let e: nat = if k < 6 { k } else { 6 };
        let d = 1000 * pow2(e);
        if d < 60000 { d } else { 60000 }
    }
}

/// Backoff delay in milliseconds for retry `retry_count`.
pub fn calculate_backoff_delay(retry_count: u32) -> (r: u64)
    ensures
        r == backoff_ms(retry_count as nat),
{
    if retry_count == 0 {
        return BASE_DELAY_MS;
    }
    let e: u32 = if retry_count < 6 { retry_count } else { 6 };
    let mut p: u64 = 1;
    let mut i: u32 = 0;
    while i < e
        invariant
            i <= e <= 6,
            p == pow2(i as nat),
            p <= 64,
        decreases e - i,
    {
        proof {
            reveal_with_fuel(pow2, 7);
            assert(pow2((i + 1) as nat) == 2 * pow2(i as nat));
            lemma_pow2_le64((i + 1) as nat);
        }
        p = p * 2;
        i = i + 1;
    }
    let d = BASE_DELAY_MS * p;
    if d < MAX_DELAY_MS { d } else { MAX_DELAY_MS }
}

proof fn lemma_pow2_le64(n: nat)
    requires
        n <= 6,
    ensures
        pow2(n) <= 64,
    decreases n,
{
    reveal_with_fuel(pow2, 7);
}

/// The delays for retries 0 to 10 are 1, 2, 4, 8, 16, 32 seconds and then 60 seconds.
pub proof fn lemma_backoff_schedule()
    ensures
        forall|k: nat|
            k <= 10 ==> #[trigger] backoff_ms(k) == seq![
                1000nat,
                2000,
                4000,
                8000,
                16000,
                32000,
                60000,
                60000,
                60000,
                60000,
                60000,
            ][k as int],
{
    reveal_with_fuel(pow2, 7);
    assert forall|k: nat| k <= 10 implies #[trigger] backoff_ms(k) == seq![
        1000nat,
        2000,
        4000,
        8000,
        16000,
        32000,
        60000,
        60000,
        60000,
        60000,
        60000,
    ][k as int] by {
        if k == 0 {
        } else if k == 1 {
        } else if k == 2 {
        } else if k == 3 {
        } else if k == 4 {
        } else if k == 5 {
        } else {
            assert(pow2(6) == 64);
        }
    }
}

/// What happened to a session, as its runner reports it.
#[derive(Debug, Clone, Copy, PartialEq, Eq, Structural)]
pub enum SessionEvent {
    /// The runner starts the session.
    Start,
    /// The streaming handshake succeeded.
    HandshakeOk,
    /// The streaming handshake failed.
    HandshakeFailed,
    /// Reading frames failed.
    StreamError,
    /// The server closed the stream.
    GracefulClose,
    /// The backoff sleep is over.
    BackoffElapsed,
}

/// What the runner does next.
#[derive(Debug, Clone, Copy, PartialEq, Eq, Structural)]
pub enum SessionAction {
    /// Open a streaming connection.
    Connect,
    /// Read frames until the stream ends.
    ReadFrames,
    /// Sleep this many milliseconds, then report `BackoffElapsed`.
    Sleep(u64),
    /// The session is over.
    Stop,
    /// The event does not apply in this state; carry on.
    Ignore,
}

/// A session's connection status and its count of failed attempts since the last
/// successful handshake.
#[derive(Debug, Clone, Copy, PartialEq, Eq, Structural)]
pub struct SessionState {
    pub status: u8,
    pub retry_count: u32,
}

/// A status change to report: (previous, current).
#[derive(Debug, Clone, Copy, PartialEq, Eq, Structural)]
pub struct StatusChange {
    pub previous: u8,
    pub current: u8,
}

/// The result of one step: the next state, the status change to report as a
/// connection-status event (previous, current), and the next action.
#[derive(Debug, Clone, Copy, PartialEq, Eq, Structural)]
pub struct SessionStep {
    pub state: SessionState,
    pub transition: Option<StatusChange>,
    pub action: SessionAction,
}

impl SessionState {
    pub open spec fn wf(&self) -> bool {
        &&& self.status <= CONNECTION_STATUS_FAILED
        &&& self.retry_count <= MAX_RETRY_COUNT
        &&& (self.status != CONNECTION_STATUS_FAILED ==> self.retry_count < MAX_RETRY_COUNT)
    }

    /// A session before its first attempt.
    pub fn new() -> (r: Self)
        ensures
            r.status == CONNECTION_STATUS_DISCONNECTED,
            r.retry_count == 0,
            r.wf(),
    {
        SessionState { status: CONNECTION_STATUS_DISCONNECTED, retry_count: 0 }
    }
}

/// A failed attempt: the retry count rises; at the limit the session fails, else it
/// waits out the backoff for the previous count.
pub open spec fn failure_step(s: SessionState) -> SessionStep {
    let k = (s.retry_count + 1) as u32;
    if k >= MAX_RETRY_COUNT {
        SessionStep {
            state: SessionState { status: CONNECTION_STATUS_FAILED, retry_count: k },
            transition: Some(StatusChange { previous: s.status, current: CONNECTION_STATUS_FAILED }),
            action: SessionAction::Stop,
        }
    } else {
        SessionStep {
            state: SessionState { status: CONNECTION_STATUS_RECONNECTING, retry_count: k },
            transition: Some(StatusChange { previous: s.status, current: CONNECTION_STATUS_RECONNECTING }),
            action: SessionAction::Sleep(backoff_ms((k - 1) as nat) as u64),
        }
    }
}

/// The transition table of a session.
pub open spec fn session_step(s: SessionState, e: SessionEvent) -> SessionStep {
    let ignore = SessionStep { state: s, transition: None, action: SessionAction::Ignore };
    if s.status == CONNECTION_STATUS_FAILED {
        SessionStep { state: s, transition: None, action: SessionAction::Stop }
    } else {
        match e {
            SessionEvent::Start => if s.status == CONNECTION_STATUS_DISCONNECTED {
                SessionStep {
                    state: SessionState { status: CONNECTION_STATUS_CONNECTING, retry_count: s.retry_count },
                    transition: Some(StatusChange { previous: CONNECTION_STATUS_DISCONNECTED, current: CONNECTION_STATUS_CONNECTING }),
                    action: SessionAction::Connect,
                }
            } else {
                ignore
            },
            SessionEvent::HandshakeOk => if s.status == CONNECTION_STATUS_CONNECTING {
                SessionStep {
                    state: SessionState { status: CONNECTION_STATUS_CONNECTED, retry_count: 0 },
                    transition: Some(StatusChange { previous: CONNECTION_STATUS_CONNECTING, current: CONNECTION_STATUS_CONNECTED }),
                    action: SessionAction::ReadFrames,
                }
            } else {
                ignore
            },
            SessionEvent::HandshakeFailed => if s.status == CONNECTION_STATUS_CONNECTING {
                failure_step(s)
            } else {
                ignore
            },
            SessionEvent::StreamError => if s.status == CONNECTION_STATUS_CONNECTED {
                failure_step(s)
            } else {
                ignore
            },
            SessionEvent::GracefulClose => if s.status == CONNECTION_STATUS_CONNECTED {
                SessionStep {
                    state: SessionState { status: CONNECTION_STATUS_DISCONNECTED, retry_count: s.retry_count },
                    transition: Some(StatusChange { previous: CONNECTION_STATUS_CONNECTED, current: CONNECTION_STATUS_DISCONNECTED }),
                    action: SessionAction::Sleep(backoff_ms(s.retry_count as nat) as u64),
                }
            } else {
                ignore
            },
            SessionEvent::BackoffElapsed => if s.status == CONNECTION_STATUS_RECONNECTING || s.status
                == CONNECTION_STATUS_DISCONNECTED {
                SessionStep {
                    state: SessionState { status: CONNECTION_STATUS_CONNECTING, retry_count: s.retry_count },
                    transition: Some(StatusChange { previous: s.status, current: CONNECTION_STATUS_CONNECTING }),
                    action: SessionAction::Connect,
                }
            } else {
                ignore
            },
        }
    }
}

fn failure(s: SessionState) -> (r: SessionStep)
    requires
        s.wf(),
        s.status != CONNECTION_STATUS_FAILED,
    ensures
        r == failure_step(s),
        r.state.wf(),
{
    let k = s.retry_count + 1;
    if k >= MAX_RETRY_COUNT {
        SessionStep {
            state: SessionState { status: CONNECTION_STATUS_FAILED, retry_count: k },
            transition: Some(StatusChange { previous: s.status, current: CONNECTION_STATUS_FAILED }),
            action: SessionAction::Stop,
        }
    } else {
        SessionStep {
            state: SessionState { status: CONNECTION_STATUS_RECONNECTING, retry_count: k },
            transition: Some(StatusChange { previous: s.status, current: CONNECTION_STATUS_RECONNECTING }),
            action: SessionAction::Sleep(calculate_backoff_delay(k - 1)),
        }
    }
}

/// One step of the reconnect state machine.
pub fn next_step(s: SessionState, e: SessionEvent) -> (r: SessionStep)
    requires
        s.wf(),
    ensures
        r == session_step(s, e),
        r.state.wf(),
{
    let ignore = SessionStep { state: s, transition: None, action: SessionAction::Ignore };
    if s.status == CONNECTION_STATUS_FAILED {
        return SessionStep { state: s, transition: None, action: SessionAction::Stop };
    }
    match e {
        SessionEvent::Start => if s.status == CONNECTION_STATUS_DISCONNECTED {
            SessionStep {
                state: SessionState { status: CONNECTION_STATUS_CONNECTING, retry_count: s.retry_count },
                transition: Some(StatusChange { previous: CONNECTION_STATUS_DISCONNECTED, current: CONNECTION_STATUS_CONNECTING }),
                action: SessionAction::Connect,
            }
        } else {
            ignore
        },
        SessionEvent::HandshakeOk => if s.status == CONNECTION_STATUS_CONNECTING {
            SessionStep {
                state: SessionState { status: CONNECTION_STATUS_CONNECTED, retry_count: 0 },
                transition: Some(StatusChange { previous: CONNECTION_STATUS_CONNECTING, current: CONNECTION_STATUS_CONNECTED }),
                action: SessionAction::ReadFrames,
            }
        } else {
            ignore
        },
        SessionEvent::HandshakeFailed => if s.status == CONNECTION_STATUS_CONNECTING {
            failure(s)
        } else {
            ignore
        },
        SessionEvent::StreamError => if s.status == CONNECTION_STATUS_CONNECTED {
            failure(s)
        } else {
            ignore
        },
        SessionEvent::GracefulClose => if s.status == CONNECTION_STATUS_CONNECTED {
            SessionStep {
                state: SessionState { status: CONNECTION_STATUS_DISCONNECTED, retry_count: s.retry_count },
                transition: Some(StatusChange { previous: CONNECTION_STATUS_CONNECTED, current: CONNECTION_STATUS_DISCONNECTED }),
                action: SessionAction::Sleep(calculate_backoff_delay(s.retry_count)),
            }
        } else {
            ignore
        },
        SessionEvent::BackoffElapsed => if s.status == CONNECTION_STATUS_RECONNECTING || s.status
            == CONNECTION_STATUS_DISCONNECTED {
            SessionStep {
                state: SessionState { status: CONNECTION_STATUS_CONNECTING, retry_count: s.retry_count },
                transition: Some(StatusChange { previous: s.status, current: CONNECTION_STATUS_CONNECTING }),
                action: SessionAction::Connect,
            }
        } else {
            ignore
        },
    }
}

/// Kinds of frame that a stream delivers.
#[derive(Debug, Clone, Copy, PartialEq, Eq, Structural)]
pub enum FrameKind {
    Text,
    Binary,
    Ping,
    Pong,
    Close,
    Raw,
}

/// What to do with a frame.
#[derive(Debug, Clone, Copy, PartialEq, Eq, Structural)]
pub enum FrameAction {
    /// Hand the payload to the normalizer under the session's venue name.
    Normalize,
    /// Answer with a pong that carries the same payload.
    ReplyPong,
    /// Nothing to do.
    Skip,
    /// The attempt is over.
    EndAttempt,
}

pub open spec fn frame_action_of(k: FrameKind) -> FrameAction {
    match k {
        FrameKind::Text => FrameAction::Normalize,
        FrameKind::Binary => FrameAction::Normalize,
        FrameKind::Ping => FrameAction::ReplyPong,
        FrameKind::Pong => FrameAction::Skip,
        FrameKind::Raw => FrameAction::Skip,
        FrameKind::Close => FrameAction::EndAttempt,
    }
}

pub fn frame_action(k: FrameKind) -> (r: FrameAction)
    ensures
        r == frame_action_of(k),
{
    match k {
        FrameKind::Text => FrameAction::Normalize,
        FrameKind::Binary => FrameAction::Normalize,
        FrameKind::Ping => FrameAction::ReplyPong,
        FrameKind::Pong => FrameAction::Skip,
        FrameKind::Raw => FrameAction::Skip,
        FrameKind::Close => FrameAction::EndAttempt,
    }
}


/// The symbol without `^`.
pub open spec fn without_caret(s: Seq<char>) -> Seq<char>
    decreases s.len(),
{
    if s.len() == 0 {
        s
    } else if s.last() == '^' {
        without_caret(s.drop_last())
    } else {
        without_caret(s.drop_last()).push(s.last())
    }
}

/// The trade and depth streams of one symbol.
pub open spec fn stream_pair(sym: Seq<char>, topic: Seq<char>) -> Seq<char> {
    let b = lower_of(without_caret(sym));
    b + "@"@ + topic + "/"@ + b + "@depth"@
}

pub open spec fn joined_streams(syms: Seq<Seq<char>>, topic: Seq<char>) -> Seq<char>
    decreases syms.len(),
{
    if syms.len() == 0 {
        Seq::empty()
    } else if syms.len() == 1 {
        stream_pair(syms[0], topic)
    } else {
        joined_streams(syms.drop_last(), topic) + "/"@ + stream_pair(syms.last(), topic)
    }
}

/// The combined-stream URL for a Binance base and symbols: `aggTrade` streams on the
/// futures host, `trade` elsewhere; a base that ends in `/ws`, `/ws/`, `/stream` or
/// `/stream/` is rewritten to the combined-stream path.
pub open spec fn combined_stream_url(base: Seq<char>, syms: Seq<Seq<char>>) -> Seq<char> {
    let topic = if has_substring(base, "fstream.binance.com"@) {
        "aggTrade"@
    } else {
        "trade"@
    };
    let j = joined_streams(syms, topic);
    if ends_with(base, "/ws/"@) {
        base.take(base.len() - 4) + "/stream?"@ + "streams="@ + j
    } else if ends_with(base, "/ws"@) {
        base.take(base.len() - 3) + "/stream?"@ + "streams="@ + j
    } else if ends_with(base, "/stream"@) {
        base + "/"@ + "?streams="@ + j
    } else if ends_with(base, "/stream/"@) {
        base + "?streams="@ + j
    } else if ends_with(base, "/"@) {
        base + "stream?streams="@ + j
    } else {
        base + "/"@ + "stream?streams="@ + j
    }
}

fn stream_pair_exec(sym: &String, topic: &str, out: &mut String)
    ensures
        final(out)@ == old(out)@ + stream_pair(sym@, topic@),
{
    let cs = chars_of(sym.as_str());
    let mut bare = String::new();
    let mut i: usize = 0;
    while i < cs.len()
        invariant
            i <= cs@.len(),
            bare@ == without_caret(cs@.take(i as int)),
        decreases cs@.len() - i,
    {
        assert(cs@.take(i + 1).drop_last() =~= cs@.take(i as int));
        if cs[i] != '^' {
            push_char(&mut bare, cs[i]);
        }
        i = i + 1;
    }
    assert(cs@.take(cs@.len() as int) =~= cs@);
    let b = to_lower(bare.as_str());
    let ghost start = out@;
    append_text(out, b.as_str());
    append_text(out, "@");
    append_text(out, topic);
    append_text(out, "/");
    append_text(out, b.as_str());
    append_text(out, "@depth");
    assert(out@ =~= start + stream_pair(sym@, topic@));
}

fn joined_streams_exec(symbols: &Vec<String>, topic: &str, out: &mut String)
    ensures
        final(out)@ == old(out)@ + joined_streams(symbols@.map_values(|x: String| x@), topic@),
{
    let ghost syms = symbols@.map_values(|x: String| x@);
    let ghost start = out@;
    let mut i: usize = 0;
    assert(syms.take(0) =~= Seq::<Seq<char>>::empty());
    while i < symbols.len()
        invariant
            syms == symbols@.map_values(|x: String| x@),
            i <= symbols@.len(),
            out@ == start + joined_streams(syms.take(i as int), topic@),
        decreases symbols@.len() - i,
    {
        proof {
            assert(syms.take(i + 1).drop_last() =~= syms.take(i as int));
            assert(syms.take(i + 1).last() == symbols@[i as int]@);
        }
        if i > 0 {
            append_text(out, "/");
        } else {
            assert(syms.take(1)[0] == symbols@[0]@);
        }
        stream_pair_exec(&symbols[i], topic, out);
        proof {
            if i > 0 {
                assert(out@ =~= start + joined_streams(syms.take(i + 1), topic@));
            } else {
                assert(out@ =~= start + joined_streams(syms.take(1), topic@));
            }
        }
        i = i + 1;
    }
    assert(syms.take(symbols@.len() as int) =~= syms);
}

/// The combined-stream URL for a Binance base and symbols.
pub fn build_binance_websocket_url_legacy(base_url: &str, symbols: &Vec<String>) -> (r: String)
    ensures
        r@ == combined_stream_url(base_url@, symbols@.map_values(|x: String| x@)),
{
    let topic = if contains_text(base_url, "fstream.binance.com") { "aggTrade" } else { "trade" };
    let bc = chars_of(base_url);
    let n = bc.len();
    let mut out = String::new();
    if ends_with_text(&bc, "/ws/") {
        proof { reveal_strlit("/ws/"); }
        let mut i: usize = 0;
        while i < n - 4
            invariant
                n == bc@.len(),
                n >= 4,
                i <= n - 4,
                out@ == bc@.take(i as int),
            decreases n - 4 - i,
        {
            push_char(&mut out, bc[i]);
            assert(bc@.take(i + 1) =~= bc@.take(i as int).push(bc@[i as int]));
            i = i + 1;
        }
        append_text(&mut out, "/stream?");
        append_text(&mut out, "streams=");
    } else if ends_with_text(&bc, "/ws") {
        proof { reveal_strlit("/ws"); }
        let mut i: usize = 0;
        while i < n - 3
            invariant
                n == bc@.len(),
                n >= 3,
                i <= n - 3,
                out@ == bc@.take(i as int),
            decreases n - 3 - i,
        {
            push_char(&mut out, bc[i]);
            assert(bc@.take(i + 1) =~= bc@.take(i as int).push(bc@[i as int]));
            i = i + 1;
        }
        append_text(&mut out, "/stream?");
        append_text(&mut out, "streams=");
    } else if ends_with_text(&bc, "/stream") {
        append_text(&mut out, base_url);
        append_text(&mut out, "/");
        append_text(&mut out, "?streams=");
    } else if ends_with_text(&bc, "/stream/") {
        append_text(&mut out, base_url);
        append_text(&mut out, "?streams=");
    } else if ends_with_text(&bc, "/") {
        append_text(&mut out, base_url);
        append_text(&mut out, "stream?streams=");
    } else {
        append_text(&mut out, base_url);
        append_text(&mut out, "/");
        append_text(&mut out, "stream?streams=");
    }
    joined_streams_exec(symbols, topic, &mut out);
    out
}

/// The URL of a venue's endpoint for a session: the combined-stream URL for Binance
/// venues, the base URL for the others (they subscribe after connecting).
pub fn build_websocket_url_from_endpoint(endpoint: &ExchangeEndpoint, symbols: &Vec<String>) -> (r: String)
    ensures
        r@ == (if has_prefix(endpoint.exchange_name@, "Binance"@) {
            combined_stream_url(endpoint.ws_url_base@, symbols@.map_values(|x: String| x@))
        } else {
            endpoint.ws_url_base@
        }),
{
    if starts_with_text(endpoint.exchange_name.as_str(), "Binance") {
        build_binance_websocket_url_legacy(endpoint.ws_url_base.as_str(), symbols)
    } else {
        endpoint.ws_url_base.clone()
    }
}

/// The combined-stream URL for a Binance endpoint.
pub fn build_binance_websocket_url_from_endpoint(endpoint: &ExchangeEndpoint, symbols: &Vec<String>) -> (r: String)
    ensures
        r@ == combined_stream_url(endpoint.ws_url_base@, symbols@.map_values(|x: String| x@)),
{
    build_binance_websocket_url_legacy(endpoint.ws_url_base.as_str(), symbols)
}

/// The URL used when no endpoint is configured for a venue.
pub fn build_default_websocket_url(exchange_name: &str, symbols: &Vec<String>) -> (r: String)
    ensures
        r@ == (if exchange_name@ == "BinanceSpot"@ {
            combined_stream_url("wss://stream.binance.com:9443/ws/"@, symbols@.map_values(|x: String| x@))
        } else if exchange_name@ == "BinanceFutures"@ {
            combined_stream_url("wss://fstream.binance.com/ws/"@, symbols@.map_values(|x: String| x@))
        } else {
            "wss://stream.binance.com:9443/ws/btcusdt@trade"@
        }),
{
    let name = exchange_name.to_owned();
    if crate::json::same_text(&name, "BinanceSpot") {
        build_binance_websocket_url_legacy("wss://stream.binance.com:9443/ws/", symbols)
    } else if crate::json::same_text(&name, "BinanceFutures") {
        build_binance_websocket_url_legacy("wss://fstream.binance.com/ws/", symbols)
    } else {
        "wss://stream.binance.com:9443/ws/btcusdt@trade".to_owned()
    }
}

/// The URL a session connects to: from the venue's configured endpoint when there is
/// one (refused when it is disabled), else the default.
pub fn session_websocket_url(
    endpoints: Option<&EndpointConfig>,
    exchange_name: &str,
    symbols: &Vec<String>,
) -> (r: Result<String, CryptoFeederError>)
    ensures
        match endpoints {
            Some(ec) => match assoc_lookup(ec.exchanges@, exchange_name@) {
                Some(ep) => if ep.enabled {
                    r is Ok && r->Ok_0@ == (if has_prefix(ep.exchange_name@, "Binance"@) {
                        combined_stream_url(ep.ws_url_base@, symbols@.map_values(|x: String| x@))
                    } else {
                        ep.ws_url_base@
                    })
                } else {
                    r == Err::<String, _>(CryptoFeederError::ExchangeDisabled)
                },
                None => r is Ok && r->Ok_0@ == default_url(exchange_name@, symbols@.map_values(|x: String| x@)),
            },
            None => r is Ok && r->Ok_0@ == default_url(exchange_name@, symbols@.map_values(|x: String| x@)),
        },
{
    match endpoints {
        Some(ec) => match ec.get_exchange_endpoint(exchange_name) {
            Some(ep) => if ep.enabled {
                Ok(build_websocket_url_from_endpoint(ep, symbols))
            } else {
                Err(CryptoFeederError::ExchangeDisabled)
            },
            None => Ok(build_default_websocket_url(exchange_name, symbols)),
        },
        None => Ok(build_default_websocket_url(exchange_name, symbols)),
    }
}

pub open spec fn default_url(exchange_name: Seq<char>, syms: Seq<Seq<char>>) -> Seq<char> {
    if exchange_name == "BinanceSpot"@ {
        combined_stream_url("wss://stream.binance.com:9443/ws/"@, syms)
    } else if exchange_name == "BinanceFutures"@ {
        combined_stream_url("wss://fstream.binance.com/ws/"@, syms)
    } else {
        "wss://stream.binance.com:9443/ws/btcusdt@trade"@
    }
}

/// The venue id of a display name such as `BinanceSpot`: the first venue whose
/// lower-case name occurs in the lower-cased display name; 0 for none.
pub open spec fn venue_id_of_display(display: Seq<char>) -> u16 {
    let l = lower_of(display);
    if has_substring(l, "binance"@) {
        1
    } else if has_substring(l, "okx"@) {
        2
    } else if has_substring(l, "bybit"@) {
        3
    } else if has_substring(l, "upbit"@) {
        4
    } else if has_substring(l, "bithumb"@) {
        5
    } else if has_substring(l, "coinbase"@) {
        6
    } else {
        0
    }
}

pub fn infer_exchange_id_from_display(display_name: &str) -> (r: u16)
    ensures
        r == venue_id_of_display(display_name@),
{
    let lower = to_lower(display_name);
    let l = lower.as_str();
    if contains_text(l, "binance") {
        1
    } else if contains_text(l, "okx") {
        2
    } else if contains_text(l, "bybit") {
        3
    } else if contains_text(l, "upbit") {
        4
    } else if contains_text(l, "bithumb") {
        5
    } else if contains_text(l, "coinbase") {
        6
    } else {
        0
    }
}

/// Venues subscribe through their URL; no subscription message is sent.
pub fn build_subscription_message(exchange_name: &str, symbols: &Vec<String>) -> (r: Option<String>)
    ensures
        r is None,
{
    None
}

} // verus!
