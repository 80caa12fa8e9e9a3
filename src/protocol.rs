//! Wire format: a 67-byte packed little-endian header followed by 16-byte items.

use vstd::prelude::*;
use vstd::string::StringSliceAdditionalSpecFns;

verus! {

pub const MESSAGE_TYPE_ORDER_BOOK: u8 = 0;
pub const MESSAGE_TYPE_TRADE_TICK: u8 = 1;
pub const MESSAGE_TYPE_INDEX_PRICE: u8 = 2;
pub const MESSAGE_TYPE_MARK_PRICE: u8 = 3;
pub const MESSAGE_TYPE_FUNDING_RATE: u8 = 4;
pub const MESSAGE_TYPE_LIQUIDATION: u8 = 5;

/// Prices and quantities are carried as integers scaled by 10^8.
pub const PRICE_SCALE: i64 = 100_000_000;
pub const QUANTITY_SCALE: i64 = 100_000_000;
/// Funding rates use the same 10^8 scale as prices.
pub const FUNDING_RATE_SCALE: i64 = 100_000_000;

pub const HEADER_SIZE: usize = 67;
pub const ITEM_SIZE: usize = 16;
pub const MAX_DATAGRAM_SIZE: usize = 1472;
pub const MAX_ITEMS_PER_PACKET: u8 = 80;
pub const NAME_FIELD_LEN: usize = 20;

/// The flags byte: bit 7 marks the last datagram, bits 0..6 hold the item count,
/// which is capped at 80.
pub open spec fn flags_byte(is_last: bool, count: u8) -> u8 {
    let c: u8 = if count > 80 { 80 } else { count };
    if is_last { (c + 128) as u8 } else { c }
}

pub open spec fn flag_is_last(flags: u8) -> bool {
    flags >= 128
}

pub open spec fn flag_item_count(flags: u8) -> u8 {
    (flags % 128) as u8
}

#[derive(Debug, Clone, Copy)]
pub struct PacketHeader {
    pub protocol_version: u8,
    pub sequence_number: u64,
    pub exchange_timestamp: u64,
    pub local_timestamp: u64,
    pub message_type: u8,
    pub flags_and_count: u8,
    pub symbol: [u8; 20],
    pub exchange: [u8; 20],
}

impl PacketHeader {
    pub fn new() -> (r: Self)
        ensures
            r.protocol_version == 1,
            r.sequence_number == 0,
            r.exchange_timestamp == 0,
            r.local_timestamp == 0,
            r.message_type == 0,
            r.flags_and_count == 0,
            r.symbol@ == Seq::new(20, |i: int| 0u8),
            r.exchange@ == Seq::new(20, |i: int| 0u8),
    {
        let r = PacketHeader {
            protocol_version: 1,
            sequence_number: 0,
            exchange_timestamp: 0,
            local_timestamp: 0,
            message_type: 0,
            flags_and_count: 0,
            symbol: [0u8; 20],
            exchange: [0u8; 20],
        };
        assert(r.symbol@ =~= Seq::new(20, |i: int| 0u8));
        assert(r.exchange@ =~= Seq::new(20, |i: int| 0u8));
        r
    }

    pub fn is_last(&self) -> (r: bool)
        ensures
            r == flag_is_last(self.flags_and_count),
    {
        let f = self.flags_and_count;
        assert((f & 0x80u8 != 0) == (f >= 128)) by (bit_vector);
        (f & 0x80u8) != 0
    }

    pub fn item_count(&self) -> (r: u8)
        ensures
            r == flag_item_count(self.flags_and_count),
    {
        let f = self.flags_and_count;
        assert(f & 0x7fu8 == f % 128) by (bit_vector);
        f & 0x7fu8
    }

    pub fn is_trade_tick(&self) -> (r: bool)
        ensures
            r == (self.message_type == MESSAGE_TYPE_TRADE_TICK),
    {
        self.message_type == MESSAGE_TYPE_TRADE_TICK
    }

    pub fn is_order_book(&self) -> (r: bool)
        ensures
            r == (self.message_type == MESSAGE_TYPE_ORDER_BOOK),
    {
        self.message_type == MESSAGE_TYPE_ORDER_BOOK
    }

    /// Sets the last-datagram flag and the item count, capping the count at 80.
    pub fn set_flags_and_count(&mut self, is_last: bool, count: u8)
        ensures
            final(self).flags_and_count == flags_byte(is_last, count),
            final(self).protocol_version == old(self).protocol_version,
            final(self).sequence_number == old(self).sequence_number,
            final(self).exchange_timestamp == old(self).exchange_timestamp,
            final(self).local_timestamp == old(self).local_timestamp,
            final(self).message_type == old(self).message_type,
            final(self).symbol == old(self).symbol,
            final(self).exchange == old(self).exchange,
    {
        let c: u8 = if count > MAX_ITEMS_PER_PACKET { MAX_ITEMS_PER_PACKET } else { count };
        let item_count: u8 = c & 0x7fu8;
        assert(c <= 80 ==> c & 0x7fu8 == c) by (bit_vector);
        assert(c <= 80 ==> c | 0x80u8 == c + 128) by (bit_vector);
        if is_last {
            self.flags_and_count = item_count | 0x80u8;
        } else {
            self.flags_and_count = item_count;
        }
    }
}


/// The bytes allowed in symbol and exchange fields: `[A-Za-z0-9^_-]`.
pub open spec fn allowed_name_byte(b: u8) -> bool {
    (0x30 <= b && b <= 0x39) || (0x41 <= b && b <= 0x5a) || (0x61 <= b && b <= 0x7a) || b == 0x5e
        || b == 0x5f || b == 0x2d
}

/// The allowed bytes of `s`, in order.
pub open spec fn sanitized(s: Seq<u8>) -> Seq<u8>
    decreases s.len(),
{
    if s.len() == 0 {
        Seq::empty()
    } else {
        let r = sanitized(s.drop_last());
        if allowed_name_byte(s.last()) {
            r.push(s.last())
        } else {
            r
        }
    }
}

/// A 20-byte name field: the sanitized text cut to 19 bytes, padded with NUL.
pub open spec fn name_field(s: Seq<u8>) -> Seq<u8> {
    let t = sanitized(s);
    let n: int = if t.len() < 19 { t.len() as int } else { 19 };
    t.take(n) + Seq::new((20 - n) as nat, |i: int| 0u8)
}

pub proof fn lemma_sanitized_allowed(s: Seq<u8>)
    ensures
        forall|i: int| 0 <= i < sanitized(s).len() ==> allowed_name_byte(#[trigger] sanitized(s)[i]),
        sanitized(s).len() <= s.len(),
    decreases s.len(),
{
    if s.len() > 0 {
        lemma_sanitized_allowed(s.drop_last());
    }
}

fn is_allowed_name_byte(b: u8) -> (r: bool)
    ensures
        r == allowed_name_byte(b),
{
    (0x30u8 <= b && b <= 0x39u8) || (0x41u8 <= b && b <= 0x5au8) || (0x61u8 <= b && b <= 0x7au8)
        || b == 0x5eu8 || b == 0x5fu8 || b == 0x2du8
}

/// Fills a NUL-padded 20-byte field from the allowed bytes of `text`, keeping at most 19.
pub fn encode_name_field(text: &str) -> (r: [u8; 20])
    ensures
        r@ == name_field(text.spec_bytes()),
{
    let bytes = text.as_bytes();
    let mut out = [0u8; 20];
    let mut n: usize = 0;
    let mut i: usize = 0;
    let ghost s = bytes@;
    while i < bytes.len()
        invariant
            s == bytes@,
            s == text.spec_bytes(),
            i <= s.len(),
            n <= 19,
            n == (if sanitized(s.take(i as int)).len() < 19 {
                sanitized(s.take(i as int)).len() as int
            } else {
                19
            }),
            forall|k: int| 0 <= k < n ==> out@[k] == sanitized(s.take(i as int))[k],
            forall|k: int| n <= k < 20 ==> out@[k] == 0u8,
            out@.len() == 20,
        decreases s.len() - i,
    {
        let b = bytes[i];
        proof {
            assert(s.take(i + 1).drop_last() =~= s.take(i as int));
            assert(s.take(i + 1).last() == b);
        }
        if is_allowed_name_byte(b) && n < 19 {
            out[n] = b;
            n = n + 1;
        }
        i = i + 1;
    }
    proof {
        assert(s.take(s.len() as int) =~= s);
        assert(out@ =~= name_field(s));
    }
    out
}

/// A name field is 20 bytes of `[A-Za-z0-9^_-]` followed by NUL padding, with at
/// least one NUL.
pub proof fn lemma_name_field_sanitized(s: Seq<u8>)
    ensures
        name_field(s).len() == 20,
        name_field(s)[19] == 0,
        forall|i: int|
            0 <= i < 20 ==> allowed_name_byte(#[trigger] name_field(s)[i]) || name_field(s)[i] == 0,
        forall|i: int, j: int| 0 <= i <= j < 20 && #[trigger] name_field(s)[i] == 0 ==> #[trigger] name_field(s)[j] == 0,
{
    lemma_sanitized_allowed(s);
    let t = sanitized(s);
    let n: int = if t.len() < 19 { t.len() as int } else { 19 };
    let f = name_field(s);
    assert forall|i: int| 0 <= i < 20 implies allowed_name_byte(#[trigger] f[i]) || f[i] == 0 by {
        if i < n {
            assert(f[i] == t[i]);
        }
    }
    assert forall|i: int, j: int| 0 <= i <= j < 20 && #[trigger] f[i] == 0 implies #[trigger] f[j] == 0 by {
        if i < n {
            assert(f[i] == t[i]);
            assert(allowed_name_byte(t[i]));
        }
    }
}

/// The byte `k` (0 = least significant) of `x`.
pub open spec fn byte_at(x: u64, k: u64) -> u8 {
    ((x >> (8 * k)) & 0xff) as u8
}

/// Little-endian encoding of a `u64`.
pub open spec fn le_u64(x: u64) -> Seq<u8> {
    seq![
        byte_at(x, 0),
        byte_at(x, 1),
        byte_at(x, 2),
        byte_at(x, 3),
        byte_at(x, 4),
        byte_at(x, 5),
        byte_at(x, 6),
        byte_at(x, 7),
    ]
}

/// Little-endian value of eight bytes.
pub open spec fn le_value(b: Seq<u8>) -> u64 {
    (b[0] as u64) | ((b[1] as u64) << 8) | ((b[2] as u64) << 16) | ((b[3] as u64) << 24) | ((
    b[4] as u64) << 32) | ((b[5] as u64) << 40) | ((b[6] as u64) << 48) | ((b[7] as u64) << 56)
}

/// The low `n` bytes of `x`, least significant first.
pub open spec fn le_bytes(x: u64, n: nat) -> Seq<u8> {
    Seq::new(n, |k: int| byte_at(x, k as u64))
}

/// Appends the low `n` bytes of `x`, least significant first.
pub fn push_le(dst: &mut Vec<u8>, x: u64, n: usize)
    requires
        n <= 8,
    ensures
        final(dst)@ == old(dst)@ + le_bytes(x, n as nat),
{
    let mut k: usize = 0;
    let ghost start = dst@;
    while k < n
        invariant
            k <= n <= 8,
            dst@ == start + le_bytes(x, k as nat),
        decreases n - k,
    {
        dst.push(((x >> (8 * k as u64)) & 0xff) as u8);
        proof {
            assert(le_bytes(x, (k + 1) as nat) =~= le_bytes(x, k as nat).push(byte_at(x, k as u64)));
        }
        k = k + 1;
    }
}

pub fn push_le_u64(dst: &mut Vec<u8>, x: u64)
    ensures
        final(dst)@ == old(dst)@ + le_u64(x),
{
    let mut k: u64 = 0;
    let ghost start = dst@;
    while k < 8
        invariant
            k <= 8,
            dst@ == start + le_u64(x).take(k as int),
        decreases 8 - k,
    {
        dst.push(((x >> (8 * k)) & 0xff) as u8);
        proof {
            assert(le_u64(x).take(k + 1) =~= le_u64(x).take(k as int).push(byte_at(x, k)));
        }
        k = k + 1;
    }
    assert(le_u64(x).take(8) =~= le_u64(x));
}

proof fn lemma_le_bytes_determine(b: Seq<u8>)
    requires
        b.len() == 8,
    ensures
        le_u64(le_value(b)) == b,
{
    let b0 = b[0];
    let b1 = b[1];
    let b2 = b[2];
    let b3 = b[3];
    let b4 = b[4];
    let b5 = b[5];
    let b6 = b[6];
    let b7 = b[7];
    let v = le_value(b);
    assert(v == (b0 as u64) | ((b1 as u64) << 8) | ((b2 as u64) << 16) | ((b3 as u64) << 24) | ((
    b4 as u64) << 32) | ((b5 as u64) << 40) | ((b6 as u64) << 48) | ((b7 as u64) << 56));
    assert({
        let w = (b0 as u64) | ((b1 as u64) << 8) | ((b2 as u64) << 16) | ((b3 as u64) << 24) | ((
        b4 as u64) << 32) | ((b5 as u64) << 40) | ((b6 as u64) << 48) | ((b7 as u64) << 56);
        &&& ((w >> 0u64) & 0xff) as u8 == b0
        &&& ((w >> 8u64) & 0xff) as u8 == b1
        &&& ((w >> 16u64) & 0xff) as u8 == b2
        &&& ((w >> 24u64) & 0xff) as u8 == b3
        &&& ((w >> 32u64) & 0xff) as u8 == b4
        &&& ((w >> 40u64) & 0xff) as u8 == b5
        &&& ((w >> 48u64) & 0xff) as u8 == b6
        &&& ((w >> 56u64) & 0xff) as u8 == b7
    }) by (bit_vector);
    assert(le_u64(v) =~= b);
}

fn read_le_u64(b: &[u8], at: usize) -> (r: u64)
    requires
        at + 8 <= b@.len(),
    ensures
        r == le_value(b@.subrange(at as int, at + 8)),
{
    (b[at] as u64) | ((b[at + 1] as u64) << 8) | ((b[at + 2] as u64) << 16) | ((b[at + 3] as u64)
        << 24) | ((b[at + 4] as u64) << 32) | ((b[at + 5] as u64) << 40) | ((b[at + 6] as u64)
        << 48) | ((b[at + 7] as u64) << 56)
}

/// The 67 bytes of a header on the wire.
pub open spec fn header_bytes(h: PacketHeader) -> Seq<u8> {
    seq![h.protocol_version] + le_u64(h.sequence_number) + le_u64(h.exchange_timestamp) + le_u64(
        h.local_timestamp,
    ) + seq![h.message_type, h.flags_and_count] + h.symbol@ + h.exchange@
}

/// The 16 bytes of an item on the wire.
pub open spec fn item_bytes(price: i64, quantity_with_flags: i64) -> Seq<u8> {
    le_u64(price as u64) + le_u64(quantity_with_flags as u64)
}

fn push_array20(dst: &mut Vec<u8>, a: &[u8; 20])
    ensures
        final(dst)@ == old(dst)@ + a@,
{
    let ghost start = dst@;
    let mut i: usize = 0;
    while i < 20
        invariant
            i <= 20,
            a@.len() == 20,
            dst@ == start + a@.take(i as int),
        decreases 20 - i,
    {
        dst.push(a[i]);
        proof {
            assert(a@.take(i + 1) =~= a@.take(i as int).push(a@[i as int]));
        }
        i = i + 1;
    }
    assert(a@.take(20) =~= a@);
}

fn read_array20(b: &[u8], at: usize) -> (r: [u8; 20])
    requires
        at + 20 <= b@.len(),
    ensures
        r@ == b@.subrange(at as int, at + 20),
{
    let mut out = [0u8; 20];
    let mut i: usize = 0;
    let len = b.len();
    while i < 20
        invariant
            i <= 20,
            len == b@.len(),
            at + 20 <= b@.len(),
            out@.len() == 20,
            forall|k: int| 0 <= k < i ==> out@[k] == b@[at + k],
        decreases 20 - i,
    {
        assert(at + i < b@.len());
        out[i] = b[at + i];
        i = i + 1;
    }
    assert(out@ =~= b@.subrange(at as int, at + 20));
    out
}

impl PacketHeader {
    pub fn set_packet_info(&mut self, message_type: u8, count: u8, is_last: bool)
        ensures
            final(self).message_type == message_type,
            final(self).flags_and_count == flags_byte(is_last, count),
            final(self).protocol_version == old(self).protocol_version,
            final(self).sequence_number == old(self).sequence_number,
            final(self).exchange_timestamp == old(self).exchange_timestamp,
            final(self).local_timestamp == old(self).local_timestamp,
            final(self).symbol == old(self).symbol,
            final(self).exchange == old(self).exchange,
    {
        self.message_type = message_type;
        self.set_flags_and_count(is_last, count);
    }

    /// The symbol field up to its first NUL, as text.
    pub fn symbol_as_string(&self) -> (r: String)
        ensures
            r@ == crate::events::lossy_text(crate::events::until_nul(self.symbol@)),
    {
        let b = crate::events::bytes_until_nul(self.symbol.as_slice());
        crate::events::text_from_bytes(b.as_slice())
    }

    /// The exchange field up to its first NUL, as text.
    pub fn exchange_as_string(&self) -> (r: String)
        ensures
            r@ == crate::events::lossy_text(crate::events::until_nul(self.exchange@)),
    {
        let b = crate::events::bytes_until_nul(self.exchange.as_slice());
        crate::events::text_from_bytes(b.as_slice())
    }

    /// Stores the symbol: only `[A-Za-z0-9^_-]` is kept, at most 19 bytes, NUL-padded.
    pub fn set_symbol(&mut self, symbol: &str)
        ensures
            final(self).symbol@ == name_field(symbol.spec_bytes()),
            final(self).protocol_version == old(self).protocol_version,
            final(self).sequence_number == old(self).sequence_number,
            final(self).exchange_timestamp == old(self).exchange_timestamp,
            final(self).local_timestamp == old(self).local_timestamp,
            final(self).message_type == old(self).message_type,
            final(self).flags_and_count == old(self).flags_and_count,
            final(self).exchange == old(self).exchange,
    {
        self.symbol = encode_name_field(symbol);
    }

    /// Stores the exchange name under the same rules as the symbol.
    pub fn set_exchange(&mut self, exchange: &str)
        ensures
            final(self).exchange@ == name_field(exchange.spec_bytes()),
            final(self).protocol_version == old(self).protocol_version,
            final(self).sequence_number == old(self).sequence_number,
            final(self).exchange_timestamp == old(self).exchange_timestamp,
            final(self).local_timestamp == old(self).local_timestamp,
            final(self).message_type == old(self).message_type,
            final(self).flags_and_count == old(self).flags_and_count,
            final(self).symbol == old(self).symbol,
    {
        self.exchange = encode_name_field(exchange);
    }

    /// Appends the header's 67 wire bytes to `dst`.
    pub fn append_to_vec(&self, dst: &mut Vec<u8>)
        ensures
            final(dst)@ == old(dst)@ + header_bytes(*self),
    {
        let ghost start = dst@;
        dst.push(self.protocol_version);
        push_le_u64(dst, self.sequence_number);
        push_le_u64(dst, self.exchange_timestamp);
        push_le_u64(dst, self.local_timestamp);
        dst.push(self.message_type);
        dst.push(self.flags_and_count);
        push_array20(dst, &self.symbol);
        push_array20(dst, &self.exchange);
        assert(dst@ =~= start + header_bytes(*self));
    }

    pub fn to_bytes(&self) -> (r: Vec<u8>)
        ensures
            r@ == header_bytes(*self),
            r@.len() == HEADER_SIZE,
    {
        let mut v: Vec<u8> = Vec::new();
        self.append_to_vec(&mut v);
        assert(v@ =~= header_bytes(*self));
        v
    }

    /// Reads a header from the first 67 bytes of `bytes`.
    pub fn from_bytes(bytes: &[u8]) -> (r: Self)
        requires
            bytes@.len() >= HEADER_SIZE,
        ensures
            header_bytes(r) == bytes@.take(HEADER_SIZE as int),
    {
        let r = PacketHeader {
            protocol_version: bytes[0],
            sequence_number: read_le_u64(bytes, 1),
            exchange_timestamp: read_le_u64(bytes, 9),
            local_timestamp: read_le_u64(bytes, 17),
            message_type: bytes[25],
            flags_and_count: bytes[26],
            symbol: read_array20(bytes, 27),
            exchange: read_array20(bytes, 47),
        };
        proof {
            lemma_le_bytes_determine(bytes@.subrange(1, 9));
            lemma_le_bytes_determine(bytes@.subrange(9, 17));
            lemma_le_bytes_determine(bytes@.subrange(17, 25));
            assert(header_bytes(r) =~= bytes@.take(67));
        }
        r
    }
}

/// Bits 0..62 of a quantity: its magnitude on the wire.
pub open spec fn magnitude_bits(q: i64) -> i64 {
    q & 0x7fff_ffff_ffff_ffffi64
}

/// A quantity with a flag stored in bit 63.
pub open spec fn packed_quantity(q: i64, flag: bool) -> i64 {
    if flag {
        magnitude_bits(q) | i64::MIN
    } else {
        magnitude_bits(q)
    }
}

/// Whether bit 63 of a packed quantity is set.
pub open spec fn flag_of(qf: i64) -> bool {
    qf & i64::MIN != 0
}

/// Packing keeps the flag and the magnitude apart, and a non-negative quantity
/// is its own magnitude.
pub proof fn lemma_packed_quantity(q: i64, flag: bool)
    ensures
        flag_of(packed_quantity(q, flag)) == flag,
        magnitude_bits(packed_quantity(q, flag)) == magnitude_bits(q),
        q >= 0 ==> magnitude_bits(q) == q,
        magnitude_bits(q) >= 0,
{
    assert((q & 0x7fff_ffff_ffff_ffffi64) & i64::MIN == 0) by (bit_vector);
    assert(((q & 0x7fff_ffff_ffff_ffffi64) | i64::MIN) & i64::MIN != 0) by (bit_vector);
    assert(((q & 0x7fff_ffff_ffff_ffffi64) | i64::MIN) & 0x7fff_ffff_ffff_ffffi64 == q
        & 0x7fff_ffff_ffff_ffffi64) by (bit_vector);
    assert((q & 0x7fff_ffff_ffff_ffffi64) & 0x7fff_ffff_ffff_ffffi64 == q & 0x7fff_ffff_ffff_ffffi64)
        by (bit_vector);
    assert(q >= 0 ==> q & 0x7fff_ffff_ffff_ffffi64 == q) by (bit_vector);
    assert(q & 0x7fff_ffff_ffff_ffffi64 >= 0) by (bit_vector);
}

fn pack_quantity(q: i64, flag: bool) -> (r: i64)
    ensures
        r == packed_quantity(q, flag),
        flag_of(r) == flag,
        magnitude_bits(r) == magnitude_bits(q),
{
    proof {
        lemma_packed_quantity(q, flag);
    }
    let m = q & 0x7fff_ffff_ffff_ffffi64;
    if flag {
        m | i64::MIN
    } else {
        m
    }
}

fn flag_bit(qf: i64) -> (r: bool)
    ensures
        r == flag_of(qf),
{
    qf & i64::MIN != 0
}

fn magnitude(qf: i64) -> (r: i64)
    ensures
        r == magnitude_bits(qf),
        r >= 0,
{
    assert(qf & 0x7fff_ffff_ffff_ffffi64 >= 0) by (bit_vector);
    qf & 0x7fff_ffff_ffff_ffffi64
}

/// An order-book level on the wire; bit 63 of the quantity marks an ask.
#[derive(Debug, Clone, Copy)]
pub struct OrderBookItem {
    pub price: i64,
    pub quantity_with_flags: i64,
}

/// A trade on the wire; bit 63 of the quantity marks a buyer-taker trade.
#[derive(Debug, Clone, Copy)]
pub struct TradeTickItem {
    pub price: i64,
    pub quantity_with_flags: i64,
}

impl TradeTickItem {
    /// A trade item from a scaled price and a scaled quantity.
    pub fn new(price: i64, quantity: i64, is_buyer_taker: bool) -> (r: Self)
        ensures
            r.price == price,
            r.quantity_with_flags == packed_quantity(quantity, is_buyer_taker),
    {
        TradeTickItem { price, quantity_with_flags: pack_quantity(quantity, is_buyer_taker) }
    }

    pub fn is_buyer_taker(&self) -> (r: bool)
        ensures
            r == flag_of(self.quantity_with_flags),
    {
        flag_bit(self.quantity_with_flags)
    }

    pub fn quantity(&self) -> (r: i64)
        ensures
            r == magnitude_bits(self.quantity_with_flags),
            r >= 0,
    {
        magnitude(self.quantity_with_flags)
    }

    pub fn set_quantity_and_flag(&mut self, quantity: i64, is_buyer_taker: bool)
        ensures
            final(self).price == old(self).price,
            final(self).quantity_with_flags == packed_quantity(quantity, is_buyer_taker),
    {
        self.quantity_with_flags = pack_quantity(quantity, is_buyer_taker);
    }

    pub fn append_to_vec(&self, dst: &mut Vec<u8>)
        ensures
            final(dst)@ == old(dst)@ + item_bytes(self.price, self.quantity_with_flags),
    {
        let ghost start = dst@;
        push_le_u64(dst, self.price as u64);
        push_le_u64(dst, self.quantity_with_flags as u64);
        assert(dst@ =~= start + item_bytes(self.price, self.quantity_with_flags));
    }

    pub fn to_bytes(&self) -> (r: Vec<u8>)
        ensures
            r@ == item_bytes(self.price, self.quantity_with_flags),
            r@.len() == ITEM_SIZE,
    {
        let mut v: Vec<u8> = Vec::new();
        self.append_to_vec(&mut v);
        assert(v@ =~= item_bytes(self.price, self.quantity_with_flags));
        v
    }
}

impl OrderBookItem {
    /// An order-book item from a scaled price and a scaled quantity.
    pub fn new(price: i64, quantity: i64, is_ask: bool) -> (r: Self)
        ensures
            r.price == price,
            r.quantity_with_flags == packed_quantity(quantity, is_ask),
    {
        OrderBookItem { price, quantity_with_flags: pack_quantity(quantity, is_ask) }
    }

    pub fn is_ask(&self) -> (r: bool)
        ensures
            r == flag_of(self.quantity_with_flags),
    {
        flag_bit(self.quantity_with_flags)
    }

    pub fn quantity(&self) -> (r: i64)
        ensures
            r == magnitude_bits(self.quantity_with_flags),
            r >= 0,
    {
        magnitude(self.quantity_with_flags)
    }

    pub fn set_quantity_and_flag(&mut self, quantity: i64, is_ask: bool)
        ensures
            final(self).price == old(self).price,
            final(self).quantity_with_flags == packed_quantity(quantity, is_ask),
    {
        self.quantity_with_flags = pack_quantity(quantity, is_ask);
    }

    pub fn append_to_vec(&self, dst: &mut Vec<u8>)
        ensures
            final(dst)@ == old(dst)@ + item_bytes(self.price, self.quantity_with_flags),
    {
        let ghost start = dst@;
        push_le_u64(dst, self.price as u64);
        push_le_u64(dst, self.quantity_with_flags as u64);
        assert(dst@ =~= start + item_bytes(self.price, self.quantity_with_flags));
    }

    pub fn to_bytes(&self) -> (r: Vec<u8>)
        ensures
            r@ == item_bytes(self.price, self.quantity_with_flags),
            r@.len() == ITEM_SIZE,
    {
        let mut v: Vec<u8> = Vec::new();
        self.append_to_vec(&mut v);
        assert(v@ =~= item_bytes(self.price, self.quantity_with_flags));
        v
    }
}

} // verus!
