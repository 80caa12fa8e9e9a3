//! Configuration: the primary key=value file, the symbol sessions file and the
//! endpoints file, read from their text.

use vstd::prelude::*;
use crate::text::{
    trimmed, text_lines, trim_text, split_lines, chars_of, string_of, index_of, find_char,
    has_prefix, starts_with_text, has_substring, contains_text, unsigned_value, parse_unsigned,
    comma_pieces, split_commas, equal_ignoring_case, eq_ignoring_case,
};
use crate::assoc::{assoc_lookup, assoc_keys, assoc_find, assoc_insert};
use crate::json::same_text;
use crate::errors::{CryptoFeederError, ConfigError};

verus! {

#[derive(Debug, Clone)]
pub struct ExchangeConfig {
    pub name: String,
    pub ws_url: String,
    pub enabled: bool,
    pub connection_timeout_ms: u64,
    pub ping_interval_ms: Option<u64>,
}

#[derive(Debug, Clone)]
pub struct UdpConfig {
    pub multicast_addr: String,
    pub port: u16,
    pub interface_addr: String,
}

#[derive(Debug, Clone)]
pub struct LoggingConfig {
    pub level: String,
    pub file_path: Option<String>,
}

#[derive(Debug, Clone)]
pub struct MetricsConfig {
    pub enabled: bool,
    pub interval_secs: u64,
}

/// One streaming connection's symbols.
#[derive(Debug, Clone)]
pub struct SymbolSession {
    pub symbols: Vec<String>,
    pub is_btc_session: bool,
}

#[derive(Debug, Clone)]
pub struct ExchangeSymbolGroup {
    pub exchange_name: String,
    pub sessions: Vec<SymbolSession>,
}

/// Sessions by venue name.
#[derive(Debug, Clone)]
pub struct SymbolConfig {
    pub exchanges: Vec<(String, ExchangeSymbolGroup)>,
}

#[derive(Debug, Clone)]
pub struct ExchangeEndpoint {
    pub exchange_name: String,
    pub ws_url_base: String,
    pub timeout_ms: u64,
    pub ping_interval_ms: Option<u64>,
    pub enabled: bool,
}

/// Endpoints by venue name.
#[derive(Debug, Clone)]
pub struct EndpointConfig {
    pub exchanges: Vec<(String, ExchangeEndpoint)>,
}

#[derive(Debug, Clone)]
pub struct Config {
    pub exchanges: Vec<ExchangeConfig>,
    pub symbols: Vec<String>,
    pub udp: UdpConfig,
    pub logging: LoggingConfig,
    pub runtime_threads: Option<usize>,
    pub metrics: MetricsConfig,
    pub symbol_config: Option<SymbolConfig>,
    pub endpoint_config: Option<EndpointConfig>,
}

pub open spec fn text_opt(o: Option<String>) -> Option<Seq<char>> {
    match o {
        Some(s) => Some(s@),
        None => None,
    }
}

pub open spec fn pair_views(p: (String, String)) -> (Seq<char>, Seq<char>) {
    (p.0@, p.1@)
}

pub open spec fn is_section_line(t: Seq<char>) -> bool {
    t.len() > 0 && t[0] == '[' && t.last() == ']'
}

pub open spec fn section_name(t: Seq<char>) -> Seq<char> {
    t.subrange(1, t.len() - 1)
}

/// A `key=value` pair split at the first `=`, both sides trimmed.
pub open spec fn key_value(t: Seq<char>) -> Option<(Seq<char>, Seq<char>)> {
    match index_of(t, '=') {
        Some(i) => Some((trimmed(t.take(i)), trimmed(t.skip(i + 1)))),
        None => None,
    }
}

/// The setting on a line of the primary file; blank lines, comments (`#`, `;`) and
/// section headers hold none.
pub open spec fn ini_entry(line: Seq<char>) -> Option<(Seq<char>, Seq<char>)> {
    let t = trimmed(line);
    if t.len() == 0 || t[0] == '#' || t[0] == ';' || is_section_line(t) {
        None
    } else {
        key_value(t)
    }
}

/// The value of `key` in the primary file: its last setting.
pub open spec fn ini_lookup(lines: Seq<Seq<char>>, key: Seq<char>) -> Option<Seq<char>>
    decreases lines.len(),
{
    if lines.len() == 0 {
        None
    } else {
        match ini_entry(lines.last()) {
            Some(kv) => if kv.0 == key {
                Some(kv.1)
            } else {
                ini_lookup(lines.drop_last(), key)
            },
            None => ini_lookup(lines.drop_last(), key),
        }
    }
}

fn key_value_exec(t: &String) -> (r: Option<(String, String)>)
    ensures
        match key_value(t@) {
            Some(kv) => r is Some && pair_views(r->0) == kv,
            None => r is None,
        },
{
    let cs = chars_of(t.as_str());
    match find_char(&cs, '=') {
        Some(i) => {
            assert(index_of(cs@, '=') is Some);
            let n = cs.len();
            assert(i < n);
            let k = string_of(&cs, 0, i);
            let v = string_of(&cs, i + 1, n);
            assert(k@ =~= t@.take(i as int));
            assert(v@ =~= t@.skip(i + 1));
            Some((trim_text(k.as_str()), trim_text(v.as_str())))
        },
        None => None,
    }
}

fn is_section_exec(t: &String) -> (r: bool)
    ensures
        r == is_section_line(t@),
{
    let cs = chars_of(t.as_str());
    cs.len() > 0 && cs[0] == '[' && cs[cs.len() - 1] == ']'
}

fn section_name_exec(t: &String) -> (r: String)
    requires
        is_section_line(t@),
    ensures
        r@ == section_name(t@),
{
    let cs = chars_of(t.as_str());
    string_of(&cs, 1, cs.len() - 1)
}

fn first_char_is(t: &String, c: char) -> (r: bool)
    ensures
        r == (t@.len() > 0 && t@[0] == c),
{
    let cs = chars_of(t.as_str());
    cs.len() > 0 && cs[0] == c
}

fn ini_entry_exec(line: &String) -> (r: Option<(String, String)>)
    ensures
        match ini_entry(line@) {
            Some(kv) => r is Some && pair_views(r->0) == kv,
            None => r is None,
        },
{
    let t = trim_text(line.as_str());
    if t.as_str().is_empty() || first_char_is(&t, '#') || first_char_is(&t, ';') || is_section_exec(&t) {
        None
    } else {
        key_value_exec(&t)
    }
}

impl Config {
    /// The settings of the primary file: `key=value` lines, later ones winning.
    pub fn parse_ini(content: &str) -> (r: Vec<(String, String)>)
        ensures
            forall|key: Seq<char>|
                #[trigger] text_opt(assoc_lookup(r@, key)) == ini_lookup(text_lines(content@), key),
    {
        let lines = split_lines(content);
        let ghost ls = text_lines(content@);
        let mut map: Vec<(String, String)> = Vec::new();
        let mut i: usize = 0;
        assert forall|key: Seq<char>| #[trigger] text_opt(assoc_lookup(map@, key)) == ini_lookup(ls.take(0), key) by {}
        while i < lines.len()
            invariant
                ls == text_lines(content@),
                lines@.len() == ls.len(),
                forall|j: int| 0 <= j < lines@.len() ==> (#[trigger] lines@[j])@ == ls[j],
                i <= ls.len(),
                forall|key: Seq<char>|
                    #[trigger] text_opt(assoc_lookup(map@, key)) == ini_lookup(ls.take(i as int), key),
            decreases ls.len() - i,
        {
            proof {
                assert(ls.take(i + 1).drop_last() =~= ls.take(i as int));
                assert(ls.take(i + 1).last() == lines@[i as int]@);
            }
            match ini_entry_exec(&lines[i]) {
                Some((k, v)) => {
                    let ghost kk = k@;
                    let ghost old_map = map@;
                    assoc_insert(&mut map, k, v);
                    proof {
                        assert forall|key: Seq<char>| #[trigger] text_opt(assoc_lookup(map@, key)) == ini_lookup(ls.take(i + 1), key) by {
                            if key != kk {
                                assert(assoc_lookup(map@, key) == assoc_lookup(old_map, key));
                            }
                        }
                    }
                },
                None => {},
            }
            i = i + 1;
        }
        assert(ls.take(ls.len() as int) =~= ls);
        map
    }
}


/// A session's symbols and whether it is a BTC-only session.
pub open spec fn session_view(s: SymbolSession) -> (Seq<Seq<char>>, bool) {
    (s.symbols@.map_values(|x: String| x@), s.is_btc_session)
}

pub open spec fn sessions_view(ss: Seq<SymbolSession>) -> Seq<(Seq<Seq<char>>, bool)> {
    Seq::new(ss.len(), |i: int| session_view(ss[i]))
}

/// The trimmed, non-empty pieces, in order.
pub open spec fn kept_symbols(pieces: Seq<Seq<char>>) -> Seq<Seq<char>>
    decreases pieces.len(),
{
    if pieces.len() == 0 {
        Seq::empty()
    } else {
        let r = kept_symbols(pieces.drop_last());
        let x = trimmed(pieces.last());
        if x.len() > 0 {
            r.push(x)
        } else {
            r
        }
    }
}

/// The symbols of a symbol line: comma-separated, trimmed, empty ones dropped.
pub open spec fn line_symbols(t: Seq<char>) -> Seq<Seq<char>> {
    kept_symbols(comma_pieces(t))
}

/// A session of one symbol that starts with `BTC^` is a BTC session.
pub open spec fn is_btc_symbols(syms: Seq<Seq<char>>) -> bool {
    syms.len() == 1 && has_prefix(syms[0], "BTC^"@)
}

pub type SymbolScan = (Map<Seq<char>, Seq<(Seq<Seq<char>>, bool)>>, Option<Seq<char>>, Seq<(Seq<Seq<char>>, bool)>);

pub open spec fn scan_groups(st: SymbolScan) -> Map<Seq<char>, Seq<(Seq<Seq<char>>, bool)>> {
    st.0
}

pub open spec fn scan_current(st: SymbolScan) -> Option<Seq<char>> {
    st.1
}

pub open spec fn scan_sessions(st: SymbolScan) -> Seq<(Seq<Seq<char>>, bool)> {
    st.2
}

/// The state after reading lines of the symbols file: the finished sections, the open
/// section and its sessions; `None` once a symbol line holds no symbol.
pub open spec fn symbol_scan(lines: Seq<Seq<char>>) -> Option<SymbolScan>
    decreases lines.len(),
{
    if lines.len() == 0 {
        Some((Map::empty(), None, Seq::empty()))
    } else {
        match symbol_scan(lines.drop_last()) {
            None => None,
            Some(st) => {
                let (g, cur, sess) = st;
                let t = trimmed(lines.last());
                if t.len() == 0 || t[0] == '#' {
                    Some(st)
                } else if is_section_line(t) {
                    let g2 = match cur {
                        Some(n) => g.insert(n, sess),
                        None => g,
                    };
                    Some((g2, Some(section_name(t)), Seq::empty()))
                } else if cur is Some {
                    let syms = line_symbols(t);
                    if syms.len() == 0 {
                        None
                    } else {
                        Some((g, cur, sess.push((syms, is_btc_symbols(syms)))))
                    }
                } else {
                    Some(st)
                }
            },
        }
    }
}

/// Sessions by venue of a symbols file, or `None` when a symbol line is empty.
pub open spec fn symbol_sections(lines: Seq<Seq<char>>) -> Option<Map<Seq<char>, Seq<(Seq<Seq<char>>, bool)>>> {
    match symbol_scan(lines) {
        None => None,
        Some(st) => Some(
            match st.1 {
                Some(n) => st.0.insert(n, st.2),
                None => st.0,
            },
        ),
    }
}

pub open spec fn groups_match(groups: Seq<(String, ExchangeSymbolGroup)>, g: Map<Seq<char>, Seq<(Seq<Seq<char>>, bool)>>) -> bool {
    forall|name: Seq<char>|
        #[trigger] assoc_lookup(groups, name) is Some == g.contains_key(name) && (
        assoc_lookup(groups, name) is Some ==> {
            let grp = assoc_lookup(groups, name)->0;
            grp.exchange_name@ == name && sessions_view(grp.sessions@) == g[name]
        })
}

impl SymbolConfig {
    /// A session from a symbol line; a line without symbols is refused.
    pub fn parse_symbol_line(line: &str) -> (r: Result<SymbolSession, CryptoFeederError>)
        ensures
            line_symbols(line@).len() == 0 ==> r == Err::<SymbolSession, _>(
                CryptoFeederError::ConfigError(ConfigError::EmptySymbolLine),
            ),
            line_symbols(line@).len() > 0 ==> r is Ok && session_view(r->Ok_0) == (
                line_symbols(line@),
                is_btc_symbols(line_symbols(line@)),
            ),
    {
        let pieces = split_commas(line);
        let ghost ps = comma_pieces(line@);
        let mut symbols: Vec<String> = Vec::new();
        let mut i: usize = 0;
        while i < pieces.len()
            invariant
                pieces@.len() == ps.len(),
                forall|j: int| 0 <= j < pieces@.len() ==> (#[trigger] pieces@[j])@ == ps[j],
                i <= ps.len(),
                symbols@.map_values(|x: String| x@) == kept_symbols(ps.take(i as int)),
            decreases ps.len() - i,
        {
            proof {
                assert(ps.take(i + 1).drop_last() =~= ps.take(i as int));
                assert(ps.take(i + 1).last() == pieces@[i as int]@);
            }
            let t = trim_text(pieces[i].as_str());
            if !t.as_str().is_empty() {
                let ghost before = symbols@;
                symbols.push(t);
                proof {
                    assert(symbols@.map_values(|x: String| x@) =~= before.map_values(|x: String| x@).push(t@));
                }
            }
            i = i + 1;
        }
        assert(ps.take(ps.len() as int) =~= ps);
        if symbols.len() == 0 {
            return Err(CryptoFeederError::ConfigError(ConfigError::EmptySymbolLine));
        }
        let is_btc_session = symbols.len() == 1 && starts_with_text(symbols[0].as_str(), "BTC^");
        Ok(SymbolSession { symbols, is_btc_session })
    }

    /// Sessions by venue from the text of a symbols file: `[Venue]` sections, one
    /// comma-separated symbol line per session, `#` comments.
    pub fn parse(content: &str) -> (r: Result<SymbolConfig, CryptoFeederError>)
        ensures
            match symbol_sections(text_lines(content@)) {
                None => r == Err::<SymbolConfig, _>(
                    CryptoFeederError::ConfigError(ConfigError::EmptySymbolLine),
                ),
                Some(g) => r is Ok && groups_match(r->Ok_0.exchanges@, g),
            },
    {
        let lines = split_lines(content);
        let ghost ls = text_lines(content@);
        let mut groups: Vec<(String, ExchangeSymbolGroup)> = Vec::new();
        let mut current: Option<String> = None;
        let mut sessions: Vec<SymbolSession> = Vec::new();
        let mut i: usize = 0;
        assert(ls.take(0) =~= Seq::<Seq<char>>::empty());
        assert(sessions_view(sessions@) =~= Seq::<(Seq<Seq<char>>, bool)>::empty());
        while i < lines.len()
            invariant
                ls == text_lines(content@),
                lines@.len() == ls.len(),
                forall|j: int| 0 <= j < lines@.len() ==> (#[trigger] lines@[j])@ == ls[j],
                i <= ls.len(),
                symbol_scan(ls.take(i as int)) is Some,
                groups_match(groups@, scan_groups(symbol_scan(ls.take(i as int))->0)),
                text_opt(current) == scan_current(symbol_scan(ls.take(i as int))->0),
                sessions_view(sessions@) == scan_sessions(symbol_scan(ls.take(i as int))->0),
            decreases ls.len() - i,
        {
            proof {
                assert(ls.take(i + 1).drop_last() =~= ls.take(i as int));
                assert(ls.take(i + 1).last() == lines@[i as int]@);
            }
            let t = trim_text(lines[i].as_str());
            if t.as_str().is_empty() || first_char_is(&t, '#') {
            } else if is_section_exec(&t) {
                match current {
                    Some(name) => {
                        let ghost old_groups = groups@;
                        let ghost sv = sessions_view(sessions@);
                        let done = sessions;
                        sessions = Vec::new();
                        let key = name.clone();
                        assoc_insert(&mut groups, key, ExchangeSymbolGroup { exchange_name: name, sessions: done });
                        proof {
                            let g = scan_groups(symbol_scan(ls.take(i as int))->0);
                            assert forall|n: Seq<char>| #[trigger] assoc_lookup(groups@, n) is Some == g.insert(name@, sv).contains_key(n) && (
                                assoc_lookup(groups@, n) is Some ==> {
                                    let grp = assoc_lookup(groups@, n)->0;
                                    grp.exchange_name@ == n && sessions_view(grp.sessions@) == g.insert(name@, sv)[n]
                                }) by {
                                if n != name@ {
                                    assert(assoc_lookup(groups@, n) == assoc_lookup(old_groups, n));
                                }
                            }
                        }
                    },
                    None => {
                        sessions = Vec::new();
                    },
                }
                current = Some(section_name_exec(&t));
                assert(sessions_view(sessions@) =~= Seq::<(Seq<Seq<char>>, bool)>::empty());
            } else if current.is_some() {
                match SymbolConfig::parse_symbol_line(t.as_str()) {
                    Ok(session) => {
                        let ghost before = sessions@;
                        sessions.push(session);
                        assert(sessions_view(sessions@) =~= sessions_view(before).push(session_view(session)));
                    },
                    Err(e) => {
                        assert(symbol_scan(ls.take(i + 1)) is None);
                        assert(forall|m: int| i + 1 <= m <= ls.len() ==> #[trigger] symbol_scan(ls.take(m)) is None) by {
                            assert forall|m: int| i + 1 <= m <= ls.len() implies #[trigger] symbol_scan(ls.take(m)) is None by {
                                lemma_scan_stays_failed(ls, i + 1, m);
                            }
                        }
                        assert(ls.take(ls.len() as int) =~= ls);
                        return Err(e);
                    },
                }
            }
            i = i + 1;
        }
        assert(ls.take(ls.len() as int) =~= ls);
        match current {
            Some(name) => {
                let ghost old_groups = groups@;
                let ghost sv = sessions_view(sessions@);
                let key = name.clone();
                assoc_insert(&mut groups, key, ExchangeSymbolGroup { exchange_name: name, sessions });
                proof {
                    let g = scan_groups(symbol_scan(ls)->0);
                    assert forall|n: Seq<char>| #[trigger] assoc_lookup(groups@, n) is Some == g.insert(name@, sv).contains_key(n) && (
                        assoc_lookup(groups@, n) is Some ==> {
                            let grp = assoc_lookup(groups@, n)->0;
                            grp.exchange_name@ == n && sessions_view(grp.sessions@) == g.insert(name@, sv)[n]
                        }) by {
                        if n != name@ {
                            assert(assoc_lookup(groups@, n) == assoc_lookup(old_groups, n));
                        }
                    }
                }
            },
            None => {},
        }
        Ok(SymbolConfig { exchanges: groups })
    }
}

proof fn lemma_scan_stays_failed(ls: Seq<Seq<char>>, a: int, m: int)
    requires
        0 <= a <= m <= ls.len(),
        symbol_scan(ls.take(a)) is None,
    ensures
        symbol_scan(ls.take(m)) is None,
    decreases m - a,
{
    if m > a {
        lemma_scan_stays_failed(ls, a, m - 1);
        assert(ls.take(m).drop_last() =~= ls.take(m - 1));
    }
}


pub type EndpointView = (Seq<char>, Seq<char>, u64, Option<u64>, bool);

pub open spec fn endpoint_view(e: ExchangeEndpoint) -> EndpointView {
    (e.exchange_name@, e.ws_url_base@, e.timeout_ms, e.ping_interval_ms, e.enabled)
}

/// An unsigned 64-bit setting.
pub open spec fn u64_setting(v: Seq<char>) -> Option<u64> {
    match unsigned_value(v) {
        Some(n) => if n <= u64::MAX {
            Some(n as u64)
        } else {
            None
        },
        None => None,
    }
}

/// The endpoint of a section: `ws_url_base` and `timeout_ms` are required; a bad
/// timeout counts as 5000 ms; `enabled` holds only when it reads `true`.
pub open spec fn endpoint_from(name: Seq<char>, st: Map<Seq<char>, Seq<char>>) -> Option<EndpointView> {
    if !st.contains_key("ws_url_base"@) || !st.contains_key("timeout_ms"@) {
        None
    } else {
        Some(
            (
                name,
                st["ws_url_base"@],
                match u64_setting(st["timeout_ms"@]) {
                    Some(t) => t,
                    None => 5000,
                },
                if st.contains_key("ping_interval_ms"@) {
                    u64_setting(st["ping_interval_ms"@])
                } else {
                    None
                },
                st.contains_key("enabled"@) && st["enabled"@] == "true"@,
            ),
        )
    }
}

pub type EndpointScan = (Map<Seq<char>, EndpointView>, Option<Seq<char>>, Map<Seq<char>, Seq<char>>);

pub open spec fn close_section(eps: Map<Seq<char>, EndpointView>, cur: Option<Seq<char>>, st: Map<Seq<char>, Seq<char>>) -> Map<Seq<char>, EndpointView> {
    match cur {
        Some(n) => match endpoint_from(n, st) {
            Some(e) => eps.insert(n, e),
            None => eps,
        },
        None => eps,
    }
}

/// The state after reading lines of the endpoints file: finished endpoints, the open
/// section and the settings read since the last section that was closed.
pub open spec fn endpoint_scan(lines: Seq<Seq<char>>) -> EndpointScan
    decreases lines.len(),
{
    if lines.len() == 0 {
        (Map::empty(), None, Map::empty())
    } else {
        let st = endpoint_scan(lines.drop_last());
        let t = trimmed(lines.last());
        if t.len() == 0 || t[0] == '#' {
            st
        } else if is_section_line(t) {
            (
                close_section(st.0, st.1, st.2),
                Some(section_name(t)),
                if st.1 is Some {
                    Map::empty()
                } else {
                    st.2
                },
            )
        } else {
            match key_value(t) {
                Some(kv) => (st.0, st.1, st.2.insert(kv.0, kv.1)),
                None => st,
            }
        }
    }
}

pub open spec fn endpoint_sections(lines: Seq<Seq<char>>) -> Map<Seq<char>, EndpointView> {
    let st = endpoint_scan(lines);
    close_section(st.0, st.1, st.2)
}

pub open spec fn settings_match(s: Seq<(String, String)>, m: Map<Seq<char>, Seq<char>>) -> bool {
    forall|k: Seq<char>|
        #[trigger] text_opt(assoc_lookup(s, k)) == (if m.contains_key(k) {
            Some(m[k])
        } else {
            None
        })
}

pub open spec fn endpoints_match(s: Seq<(String, ExchangeEndpoint)>, m: Map<Seq<char>, EndpointView>) -> bool {
    forall|k: Seq<char>|
        #[trigger] assoc_lookup(s, k) is Some == m.contains_key(k) && (assoc_lookup(s, k) is Some
            ==> endpoint_view(assoc_lookup(s, k)->0) == m[k])
}

fn setting<'a>(st: &'a Vec<(String, String)>, key: &str) -> (r: Option<&'a String>)
    ensures
        r is Some == assoc_lookup(st@, key@) is Some,
        r is Some ==> *r->0 == assoc_lookup(st@, key@)->0,
{
    match assoc_find(st, key) {
        Some(i) => Some(&st[i].1),
        None => None,
    }
}

impl EndpointConfig {
    /// The endpoint of a section from its settings, when `ws_url_base` and `timeout_ms`
    /// are there.
    pub fn parse_exchange_settings(exchange_name: &str, settings: &Vec<(String, String)>) -> (r: Option<ExchangeEndpoint>)
        ensures
            forall|m: Map<Seq<char>, Seq<char>>|
                settings_match(settings@, m) ==> match #[trigger] endpoint_from(exchange_name@, m) {
                    Some(e) => r is Some && endpoint_view(r->0) == e,
                    None => r is None,
                },
    {
        let url = setting(settings, "ws_url_base");
        let timeout = setting(settings, "timeout_ms");
        let (url, timeout) = match (url, timeout) {
            (Some(u), Some(t)) => (u, t),
            _ => {
                proof {
                    assert forall|m: Map<Seq<char>, Seq<char>>| settings_match(settings@, m) implies
                        !m.contains_key("ws_url_base"@) || !m.contains_key("timeout_ms"@) by {
                        assert(text_opt(assoc_lookup(settings@, "ws_url_base"@)) == (if m.contains_key("ws_url_base"@) { Some(m["ws_url_base"@]) } else { None }));
                        assert(text_opt(assoc_lookup(settings@, "timeout_ms"@)) == (if m.contains_key("timeout_ms"@) { Some(m["timeout_ms"@]) } else { None }));
                    }
                }
                return None;
            },
        };
        let timeout_ms = match parse_unsigned(timeout.as_str(), u64::MAX) {
            Some(t) => t,
            None => 5000,
        };
        let ping_interval_ms = match setting(settings, "ping_interval_ms") {
            Some(p) => parse_unsigned(p.as_str(), u64::MAX),
            None => None,
        };
        let enabled = match setting(settings, "enabled") {
            Some(e) => same_text(e, "true"),
            None => false,
        };
        let r = ExchangeEndpoint {
            exchange_name: exchange_name.to_owned(),
            ws_url_base: url.clone(),
            timeout_ms,
            ping_interval_ms,
            enabled,
        };
        proof {
            assert forall|m: Map<Seq<char>, Seq<char>>| settings_match(settings@, m) implies match #[trigger] endpoint_from(exchange_name@, m) {
                Some(e) => endpoint_view(r) == e,
                None => false,
            } by {
                assert(text_opt(assoc_lookup(settings@, "ws_url_base"@)) == (if m.contains_key("ws_url_base"@) { Some(m["ws_url_base"@]) } else { None }));
                assert(text_opt(assoc_lookup(settings@, "timeout_ms"@)) == (if m.contains_key("timeout_ms"@) { Some(m["timeout_ms"@]) } else { None }));
                assert(text_opt(assoc_lookup(settings@, "ping_interval_ms"@)) == (if m.contains_key("ping_interval_ms"@) { Some(m["ping_interval_ms"@]) } else { None }));
                assert(text_opt(assoc_lookup(settings@, "enabled"@)) == (if m.contains_key("enabled"@) { Some(m["enabled"@]) } else { None }));
            }
        }
        Some(r)
    }

    /// Endpoints by venue from the text of an endpoints file.
    pub fn parse(content: &str) -> (r: EndpointConfig)
        ensures
            endpoints_match(r.exchanges@, endpoint_sections(text_lines(content@))),
    {
        let lines = split_lines(content);
        let ghost ls = text_lines(content@);
        let mut eps: Vec<(String, ExchangeEndpoint)> = Vec::new();
        let mut current: Option<String> = None;
        let mut settings: Vec<(String, String)> = Vec::new();
        let mut i: usize = 0;
        assert(ls.take(0) =~= Seq::<Seq<char>>::empty());
        while i < lines.len()
            invariant
                ls == text_lines(content@),
                lines@.len() == ls.len(),
                forall|j: int| 0 <= j < lines@.len() ==> (#[trigger] lines@[j])@ == ls[j],
                i <= ls.len(),
                endpoints_match(eps@, endpoint_scan(ls.take(i as int)).0),
                text_opt(current) == endpoint_scan(ls.take(i as int)).1,
                settings_match(settings@, endpoint_scan(ls.take(i as int)).2),
            decreases ls.len() - i,
        {
            proof {
                assert(ls.take(i + 1).drop_last() =~= ls.take(i as int));
                assert(ls.take(i + 1).last() == lines@[i as int]@);
            }
            let t = trim_text(lines[i].as_str());
            if t.as_str().is_empty() || first_char_is(&t, '#') {
            } else if is_section_exec(&t) {
                let ghost st = endpoint_scan(ls.take(i as int));
                match current {
                    Some(name) => {
                        let ep = EndpointConfig::parse_exchange_settings(name.as_str(), &settings);
                        match ep {
                            Some(e) => {
                                let ghost old_eps = eps@;
                                let ghost ev = endpoint_view(e);
                                assoc_insert(&mut eps, name, e);
                                proof {
                                    assert forall|k: Seq<char>| #[trigger] assoc_lookup(eps@, k) is Some == st.0.insert(ev.0, ev).contains_key(k) && (assoc_lookup(eps@, k) is Some
                                        ==> endpoint_view(assoc_lookup(eps@, k)->0) == st.0.insert(ev.0, ev)[k]) by {
                                        if k != ev.0 {
                                            assert(assoc_lookup(eps@, k) == assoc_lookup(old_eps, k));
                                        }
                                    }
                                }
                            },
                            None => {},
                        }
                        settings = Vec::new();
                        assert forall|k: Seq<char>| #[trigger] text_opt(assoc_lookup(settings@, k)) == (if Map::<Seq<char>, Seq<char>>::empty().contains_key(k) { Some(Map::<Seq<char>, Seq<char>>::empty()[k]) } else { None }) by {}
                    },
                    None => {},
                }
                current = Some(section_name_exec(&t));
            } else {
                match key_value_exec(&t) {
                    Some((k, v)) => {
                        let ghost kk = k@;
                        let ghost vv = v@;
                        let ghost old_settings = settings@;
                        assoc_insert(&mut settings, k, v);
                        proof {
                            let m = endpoint_scan(ls.take(i as int)).2;
                            assert forall|key: Seq<char>| #[trigger] text_opt(assoc_lookup(settings@, key)) == (if m.insert(kk, vv).contains_key(key) { Some(m.insert(kk, vv)[key]) } else { None }) by {
                                if key != kk {
                                    assert(assoc_lookup(settings@, key) == assoc_lookup(old_settings, key));
                                }
                            }
                        }
                    },
                    None => {},
                }
            }
            i = i + 1;
        }
        assert(ls.take(ls.len() as int) =~= ls);
        let ghost st = endpoint_scan(ls);
        match current {
            Some(name) => {
                let ep = EndpointConfig::parse_exchange_settings(name.as_str(), &settings);
                match ep {
                    Some(e) => {
                        let ghost old_eps = eps@;
                        let ghost ev = endpoint_view(e);
                        assoc_insert(&mut eps, name, e);
                        proof {
                            assert forall|k: Seq<char>| #[trigger] assoc_lookup(eps@, k) is Some == st.0.insert(ev.0, ev).contains_key(k) && (assoc_lookup(eps@, k) is Some
                                ==> endpoint_view(assoc_lookup(eps@, k)->0) == st.0.insert(ev.0, ev)[k]) by {
                                if k != ev.0 {
                                    assert(assoc_lookup(eps@, k) == assoc_lookup(old_eps, k));
                                }
                            }
                        }
                    },
                    None => {},
                }
            },
            None => {},
        }
        EndpointConfig { exchanges: eps }
    }

    /// The endpoint of a venue.
    pub fn get_exchange_endpoint(&self, exchange_name: &str) -> (r: Option<&ExchangeEndpoint>)
        ensures
            r is Some == assoc_lookup(self.exchanges@, exchange_name@) is Some,
            r is Some ==> *r->0 == assoc_lookup(self.exchanges@, exchange_name@)->0,
    {
        match assoc_find(&self.exchanges, exchange_name) {
            Some(i) => Some(&self.exchanges[i].1),
            None => None,
        }
    }

    /// The names of the enabled endpoints, in order.
    pub fn get_enabled_exchange_names(&self) -> (r: Vec<String>)
        ensures
            r@.map_values(|x: String| x@) == enabled_names(self.exchanges@),
    {
        let mut out: Vec<String> = Vec::new();
        let mut i: usize = 0;
        while i < self.exchanges.len()
            invariant
                i <= self.exchanges@.len(),
                out@.map_values(|x: String| x@) == enabled_names(self.exchanges@.take(i as int)),
            decreases self.exchanges@.len() - i,
        {
            proof {
                assert(self.exchanges@.take(i + 1).drop_last() =~= self.exchanges@.take(i as int));
            }
            if self.exchanges[i].1.enabled {
                let ghost before = out@;
                out.push(self.exchanges[i].1.exchange_name.clone());
                assert(out@.map_values(|x: String| x@) =~= before.map_values(|x: String| x@).push(self.exchanges@[i as int].1.exchange_name@));
            }
            i = i + 1;
        }
        assert(self.exchanges@.take(self.exchanges@.len() as int) =~= self.exchanges@);
        out
    }

    /// The names of all endpoints, in order.
    pub fn get_all_exchange_names(&self) -> (r: Vec<String>)
        ensures
            r@.map_values(|x: String| x@) == assoc_keys(self.exchanges@),
    {
        names_of(&self.exchanges)
    }
}

/// The venue names of the enabled endpoints.
pub open spec fn enabled_names(s: Seq<(String, ExchangeEndpoint)>) -> Seq<Seq<char>>
    decreases s.len(),
{
    if s.len() == 0 {
        Seq::empty()
    } else if s.last().1.enabled {
        enabled_names(s.drop_last()).push(s.last().1.exchange_name@)
    } else {
        enabled_names(s.drop_last())
    }
}

fn names_of<V>(entries: &Vec<(String, V)>) -> (r: Vec<String>)
    ensures
        r@.map_values(|x: String| x@) == assoc_keys(entries@),
{
    let mut out: Vec<String> = Vec::new();
    let mut i: usize = 0;
    while i < entries.len()
        invariant
            i <= entries@.len(),
            out@.map_values(|x: String| x@) == assoc_keys(entries@).take(i as int),
        decreases entries@.len() - i,
    {
        let ghost before = out@;
        let k = entries[i].0.clone();
        out.push(k);
        assert(out@.map_values(|x: String| x@) =~= before.map_values(|x: String| x@).push(entries@[i as int].0@));
        assert(assoc_keys(entries@).take(i + 1) =~= assoc_keys(entries@).take(i as int).push(entries@[i as int].0@));
        i = i + 1;
    }
    assert(assoc_keys(entries@).take(entries@.len() as int) =~= assoc_keys(entries@));
    out
}

/// The sessions of one venue that are (or are not) BTC sessions.
pub open spec fn sessions_where(ss: Seq<SymbolSession>, btc: bool) -> Seq<SymbolSession>
    decreases ss.len(),
{
    if ss.len() == 0 {
        Seq::empty()
    } else if ss.last().is_btc_session == btc {
        sessions_where(ss.drop_last(), btc).push(ss.last())
    } else {
        sessions_where(ss.drop_last(), btc)
    }
}

/// Every symbol of the sessions, session by session.
pub open spec fn all_symbols(ss: Seq<SymbolSession>) -> Seq<Seq<char>>
    decreases ss.len(),
{
    if ss.len() == 0 {
        Seq::empty()
    } else {
        all_symbols(ss.drop_last()) + ss.last().symbols@.map_values(|x: String| x@)
    }
}

impl SymbolConfig {
    /// The sessions of a venue.
    pub fn get_exchange_sessions(&self, exchange_name: &str) -> (r: Option<&Vec<SymbolSession>>)
        ensures
            r is Some == assoc_lookup(self.exchanges@, exchange_name@) is Some,
            r is Some ==> *r->0 == assoc_lookup(self.exchanges@, exchange_name@)->0.sessions,
    {
        match assoc_find(&self.exchanges, exchange_name) {
            Some(i) => Some(&self.exchanges[i].1.sessions),
            None => None,
        }
    }

    /// The venue names, in order.
    pub fn get_exchange_names(&self) -> (r: Vec<String>)
        ensures
            r@.map_values(|x: String| x@) == assoc_keys(self.exchanges@),
    {
        names_of(&self.exchanges)
    }

    /// Every symbol of a venue; none for an unknown venue.
    pub fn get_all_symbols(&self, exchange_name: &str) -> (r: Vec<String>)
        ensures
            r@.map_values(|x: String| x@) == match assoc_lookup(self.exchanges@, exchange_name@) {
                Some(g) => all_symbols(g.sessions@),
                None => Seq::empty(),
            },
    {
        let mut out: Vec<String> = Vec::new();
        match self.get_exchange_sessions(exchange_name) {
            Some(ss) => {
                let mut i: usize = 0;
                while i < ss.len()
                    invariant
                        i <= ss@.len(),
                        out@.map_values(|x: String| x@) == all_symbols(ss@.take(i as int)),
                    decreases ss@.len() - i,
                {
                    proof {
                        assert(ss@.take(i + 1).drop_last() =~= ss@.take(i as int));
                    }
                    let syms = &ss[i].symbols;
                    let ghost start = out@.map_values(|x: String| x@);
                    let mut j: usize = 0;
                    while j < syms.len()
                        invariant
                            j <= syms@.len(),
                            out@.map_values(|x: String| x@) == start + syms@.map_values(|x: String| x@).take(j as int),
                        decreases syms@.len() - j,
                    {
                        let ghost before = out@;
                        let x = syms[j].clone();
                        out.push(x);
                        assert(out@.map_values(|x: String| x@) =~= before.map_values(|x: String| x@).push(syms@[j as int]@));
                        assert(syms@.map_values(|x: String| x@).take(j + 1) =~= syms@.map_values(|x: String| x@).take(j as int).push(syms@[j as int]@));
                        assert(out@.map_values(|x: String| x@) =~= start + syms@.map_values(|x: String| x@).take(j + 1));
                        j = j + 1;
                    }
                    assert(syms@.map_values(|x: String| x@).take(syms@.len() as int) =~= syms@.map_values(|x: String| x@));
                    i = i + 1;
                }
                assert(ss@.take(ss@.len() as int) =~= ss@);
            },
            None => {},
        }
        out
    }

    fn sessions_with(&self, exchange_name: &str, btc: bool) -> (r: Vec<&SymbolSession>)
        ensures
            r@.len() == (match assoc_lookup(self.exchanges@, exchange_name@) {
                Some(g) => sessions_where(g.sessions@, btc),
                None => Seq::empty(),
            }).len(),
            forall|i: int| 0 <= i < r@.len() ==> *(#[trigger] r@[i]) == (match assoc_lookup(self.exchanges@, exchange_name@) {
                Some(g) => sessions_where(g.sessions@, btc),
                None => Seq::empty(),
            })[i],
    {
        let mut out: Vec<&SymbolSession> = Vec::new();
        match self.get_exchange_sessions(exchange_name) {
            Some(ss) => {
                let mut i: usize = 0;
                while i < ss.len()
                    invariant
                        i <= ss@.len(),
                        out@.len() == sessions_where(ss@.take(i as int), btc).len(),
                        forall|k: int| 0 <= k < out@.len() ==> *(#[trigger] out@[k]) == sessions_where(ss@.take(i as int), btc)[k],
                    decreases ss@.len() - i,
                {
                    proof {
                        assert(ss@.take(i + 1).drop_last() =~= ss@.take(i as int));
                    }
                    if ss[i].is_btc_session == btc {
                        out.push(&ss[i]);
                    }
                    i = i + 1;
                }
                assert(ss@.take(ss@.len() as int) =~= ss@);
            },
            None => {},
        }
        out
    }

    /// The BTC sessions of a venue.
    pub fn get_btc_sessions(&self, exchange_name: &str) -> (r: Vec<&SymbolSession>)
        ensures
            r@.len() == (match assoc_lookup(self.exchanges@, exchange_name@) {
                Some(g) => sessions_where(g.sessions@, true),
                None => Seq::empty(),
            }).len(),
            forall|i: int| 0 <= i < r@.len() ==> *(#[trigger] r@[i]) == (match assoc_lookup(self.exchanges@, exchange_name@) {
                Some(g) => sessions_where(g.sessions@, true),
                None => Seq::empty(),
            })[i],
    {
        self.sessions_with(exchange_name, true)
    }

    /// The sessions of a venue that are not BTC sessions.
    pub fn get_non_btc_sessions(&self, exchange_name: &str) -> (r: Vec<&SymbolSession>)
        ensures
            r@.len() == (match assoc_lookup(self.exchanges@, exchange_name@) {
                Some(g) => sessions_where(g.sessions@, false),
                None => Seq::empty(),
            }).len(),
            forall|i: int| 0 <= i < r@.len() ==> *(#[trigger] r@[i]) == (match assoc_lookup(self.exchanges@, exchange_name@) {
                Some(g) => sessions_where(g.sessions@, false),
                None => Seq::empty(),
            })[i],
    {
        self.sessions_with(exchange_name, false)
    }

    /// Sessions by venue from the text of a symbols file.
    pub fn load(content: &str) -> (r: Result<SymbolConfig, CryptoFeederError>)
        ensures
            match symbol_sections(text_lines(content@)) {
                None => r == Err::<SymbolConfig, _>(
                    CryptoFeederError::ConfigError(ConfigError::EmptySymbolLine),
                ),
                Some(g) => r is Ok && groups_match(r->Ok_0.exchanges@, g),
            },
    {
        SymbolConfig::parse(content)
    }
}

impl EndpointConfig {
    /// Endpoints by venue from the text of an endpoints file.
    pub fn load(content: &str) -> (r: EndpointConfig)
        ensures
            endpoints_match(r.exchanges@, endpoint_sections(text_lines(content@))),
    {
        EndpointConfig::parse(content)
    }
}


/// The value of `key` in the primary file's text, if any.
pub open spec fn setting_of(text: Option<Seq<char>>, key: Seq<char>) -> Option<Seq<char>> {
    match text {
        Some(c) => ini_lookup(text_lines(c), key),
        None => None,
    }
}

pub open spec fn or_text(o: Option<Seq<char>>, d: Seq<char>) -> Seq<char> {
    match o {
        Some(v) => v,
        None => d,
    }
}

pub open spec fn str_opt(t: Option<&str>) -> Option<Seq<char>> {
    match t {
        Some(s) => Some(s@),
        None => None,
    }
}

pub open spec fn port_setting(v: Option<Seq<char>>) -> u16 {
    match v {
        Some(t) => match unsigned_value(t) {
            Some(n) => if n <= 65535 {
                n as u16
            } else {
                55555
            },
            None => 55555,
        },
        None => 55555,
    }
}

pub open spec fn threads_setting(v: Option<Seq<char>>) -> Option<usize> {
    match v {
        Some(t) => match unsigned_value(t) {
            Some(n) => if 0 < n && n <= usize::MAX {
                Some(n as usize)
            } else {
                None
            },
            None => None,
        },
        None => None,
    }
}

pub open spec fn flag_setting(v: Option<Seq<char>>) -> bool {
    match v {
        Some(t) => equal_ignoring_case(t, "true"@, "TRUE"@) || t == "1"@,
        None => false,
    }
}

pub open spec fn interval_setting(v: Option<Seq<char>>) -> u64 {
    match v {
        Some(t) => match u64_setting(t) {
            Some(n) => n,
            None => 5,
        },
        None => 5,
    }
}

pub open spec fn contains_btc(s: Seq<char>) -> bool {
    has_substring(s, "BTC"@)
}

/// The symbols that contain (or do not contain) `BTC`, in order.
pub open spec fn symbols_where(s: Seq<String>, btc: bool) -> Seq<Seq<char>>
    decreases s.len(),
{
    if s.len() == 0 {
        Seq::empty()
    } else if contains_btc(s.last()@) == btc {
        symbols_where(s.drop_last(), btc).push(s.last()@)
    } else {
        symbols_where(s.drop_last(), btc)
    }
}

fn opt_setting(map: &Vec<(String, String)>, key: &str) -> (r: Option<String>)
    ensures
        text_opt(r) == text_opt(assoc_lookup(map@, key@)),
{
    match assoc_find(map, key) {
        Some(i) => Some(map[i].1.clone()),
        None => None,
    }
}

impl Config {
    /// The configuration from the texts of the primary, symbols and endpoints files,
    /// each absent when its file could not be read; absent or unreadable values take
    /// their defaults.
    pub fn load(config_text: Option<&str>, symbol_text: Option<&str>, endpoint_text: Option<&str>) -> (r: Config)
        ensures
            r.udp.multicast_addr@ == or_text(setting_of(str_opt(config_text), "multicast_addr"@), "239.255.1.1"@),
            r.udp.port == port_setting(setting_of(str_opt(config_text), "port"@)),
            r.udp.interface_addr@ == or_text(setting_of(str_opt(config_text), "interface_addr"@), "0.0.0.0"@),
            r.runtime_threads == threads_setting(setting_of(str_opt(config_text), "runtime_threads"@)),
            r.metrics.enabled == flag_setting(setting_of(str_opt(config_text), "metrics_enabled"@)),
            r.metrics.interval_secs == interval_setting(setting_of(str_opt(config_text), "metrics_interval_secs"@)),
            r.logging.level@ == or_text(setting_of(str_opt(config_text), "log_level"@), "info"@),
            text_opt(r.logging.file_path) == setting_of(str_opt(config_text), "log_file_path"@),
            r.symbols@.map_values(|x: String| x@) == seq!["BTC^USDT"@],
            r.exchanges@.len() == 1,
            r.exchanges@[0].name@ == "binance"@,
            r.exchanges@[0].enabled,
            match symbol_text {
                Some(t) => match symbol_sections(text_lines(t@)) {
                    Some(g) => r.symbol_config is Some && groups_match(r.symbol_config->0.exchanges@, g),
                    None => r.symbol_config is None,
                },
                None => r.symbol_config is None,
            },
            match endpoint_text {
                Some(t) => r.endpoint_config is Some && endpoints_match(
                    r.endpoint_config->0.exchanges@,
                    endpoint_sections(text_lines(t@)),
                ),
                None => r.endpoint_config is None,
            },
    {
        let map = match config_text {
            Some(t) => Config::parse_ini(t),
            None => Vec::new(),
        };
        assert forall|key: Seq<char>| #[trigger] text_opt(assoc_lookup(map@, key)) == setting_of(str_opt(config_text), key) by {}
        let multicast_addr = match opt_setting(&map, "multicast_addr") {
            Some(v) => v,
            None => "239.255.1.1".to_owned(),
        };
        let port: u16 = match opt_setting(&map, "port") {
            Some(v) => match parse_unsigned(v.as_str(), 65535) {
                Some(n) => n as u16,
                None => 55555,
            },
            None => 55555,
        };
        let interface_addr = match opt_setting(&map, "interface_addr") {
            Some(v) => v,
            None => "0.0.0.0".to_owned(),
        };
        let runtime_threads: Option<usize> = match opt_setting(&map, "runtime_threads") {
            Some(v) => match parse_unsigned(v.as_str(), usize::MAX as u64) {
                Some(n) => if n > 0 { Some(n as usize) } else { None },
                None => None,
            },
            None => None,
        };
        proof {
            reveal_strlit("true");
            reveal_strlit("TRUE");
        }
        let enabled = match opt_setting(&map, "metrics_enabled") {
            Some(v) => eq_ignoring_case(v.as_str(), "true", "TRUE") || same_text(&v, "1"),
            None => false,
        };
        let interval_secs: u64 = match opt_setting(&map, "metrics_interval_secs") {
            Some(v) => match parse_unsigned(v.as_str(), u64::MAX) {
                Some(n) => n,
                None => 5,
            },
            None => 5,
        };
        let level = match opt_setting(&map, "log_level") {
            Some(v) => v,
            None => "info".to_owned(),
        };
        let file_path = opt_setting(&map, "log_file_path");
        let symbol_config = match symbol_text {
            Some(t) => match SymbolConfig::load(t) {
                Ok(c) => Some(c),
                Err(_) => None,
            },
            None => None,
        };
        let endpoint_config = match endpoint_text {
            Some(t) => Some(EndpointConfig::load(t)),
            None => None,
        };
        let mut exchanges: Vec<ExchangeConfig> = Vec::new();
        exchanges.push(
            ExchangeConfig {
                name: "binance".to_owned(),
                ws_url: "wss://stream.binance.com:9443/ws/btcusdt@trade/btcusdt@depth".to_owned(),
                enabled: true,
                connection_timeout_ms: 5000,
                ping_interval_ms: Some(30000),
            },
        );
        let mut symbols: Vec<String> = Vec::new();
        symbols.push("BTC^USDT".to_owned());
        assert(symbols@.map_values(|x: String| x@) =~= seq!["BTC^USDT"@]);
        Config {
            exchanges,
            symbols,
            udp: UdpConfig { multicast_addr, port, interface_addr },
            logging: LoggingConfig { level, file_path },
            runtime_threads,
            metrics: MetricsConfig { enabled, interval_secs },
            symbol_config,
            endpoint_config,
        }
    }

    fn symbols_with(&self, btc: bool) -> (r: Vec<String>)
        ensures
            r@.map_values(|x: String| x@) == symbols_where(self.symbols@, btc),
    {
        let mut out: Vec<String> = Vec::new();
        let mut i: usize = 0;
        while i < self.symbols.len()
            invariant
                i <= self.symbols@.len(),
                out@.map_values(|x: String| x@) == symbols_where(self.symbols@.take(i as int), btc),
            decreases self.symbols@.len() - i,
        {
            proof {
                assert(self.symbols@.take(i + 1).drop_last() =~= self.symbols@.take(i as int));
            }
            if contains_text(self.symbols[i].as_str(), "BTC") == btc {
                let ghost before = out@;
                let x = self.symbols[i].clone();
                out.push(x);
                assert(out@.map_values(|x: String| x@) =~= before.map_values(|x: String| x@).push(self.symbols@[i as int]@));
            }
            i = i + 1;
        }
        assert(self.symbols@.take(self.symbols@.len() as int) =~= self.symbols@);
        out
    }

    /// The symbols that contain `BTC`.
    pub fn get_btc_symbols(&self) -> (r: Vec<String>)
        ensures
            r@.map_values(|x: String| x@) == symbols_where(self.symbols@, true),
    {
        self.symbols_with(true)
    }

    /// The symbols that do not contain `BTC`.
    pub fn get_non_btc_symbols(&self) -> (r: Vec<String>)
        ensures
            r@.map_values(|x: String| x@) == symbols_where(self.symbols@, false),
    {
        self.symbols_with(false)
    }
}

} // verus!
