//! Packet builder: canonical records to sequenced, MTU-bounded datagrams.

use vstd::prelude::*;
use vstd::string::StringSliceAdditionalSpecFns;
use crate::protocol::{
    PacketHeader, header_bytes, item_bytes, le_u64, name_field, encode_name_field, flags_byte,
    flag_is_last, flag_item_count, packed_quantity, HEADER_SIZE, ITEM_SIZE, MAX_DATAGRAM_SIZE,
    MESSAGE_TYPE_ORDER_BOOK, MESSAGE_TYPE_TRADE_TICK, MESSAGE_TYPE_INDEX_PRICE,
    MESSAGE_TYPE_MARK_PRICE, MESSAGE_TYPE_FUNDING_RATE, MESSAGE_TYPE_LIQUIDATION,
};
use crate::errors::{CryptoFeederError, SerializationError};
use crate::ordering::{stable_order, stably_ordered, lemma_stable_order_shape};
use crate::protocol::{flag_of, magnitude_bits, lemma_packed_quantity};
use crate::data_parser::{ParsedData, StandardizedTrade, StandardizedTradeBatch, StandardizedOrderBookUpdate, OrderBookLevel};
use crate::clock::now_nanos;
use crate::payload_pool::{PayloadPool, POOL_SLOTS, POOL_BUFFER_CAPACITY};
use crate::events::{SystemEvent, event_message_type, payload_bytes, lossy_text, until_nul};
use vstd::utf8::encode_utf8;

verus! {

/// One datagram: its bytes and their count.
pub struct UdpPacket {
    pub data: Vec<u8>,
    pub size: usize,
}

/// Items per datagram for trade batches, order books and single values.
pub const CHUNK_ITEMS: usize = 80;
/// Items per datagram for trades that arrive one by one.
pub const SINGLE_TRADE_CHUNK_ITEMS: usize = 50;

/// The bytes of a header with the given fields (protocol version 1).
pub open spec fn header_of(
    seq: u64,
    ets: u64,
    lts: u64,
    mt: u8,
    flags: u8,
    sym: Seq<u8>,
    exch: Seq<u8>,
) -> Seq<u8> {
    seq![1u8] + le_u64(seq) + le_u64(ets) + le_u64(lts) + seq![mt, flags] + sym + exch
}

/// The bytes of a run of items, `(price, quantity_with_flags)` each.
pub open spec fn items_bytes(items: Seq<(i64, i64)>) -> Seq<u8>
    decreases items.len(),
{
    if items.len() == 0 {
        Seq::empty()
    } else {
        items_bytes(items.drop_last()) + item_bytes(items.last().0, items.last().1)
    }
}

/// The items cut into runs of `c`, in order; the last run may be shorter.
pub open spec fn chunks(items: Seq<(i64, i64)>, c: nat) -> Seq<Seq<(i64, i64)>>
    decreases items.len(),
{
    if items.len() == 0 || c == 0 {
        Seq::empty()
    } else if items.len() <= c {
        seq![items]
    } else {
        seq![items.take(c as int)] + chunks(items.skip(c as int), c)
    }
}

/// Datagram `k` of a message whose items are cut into runs of `c`, numbered from `seq0`.
pub open spec fn datagram(
    seq0: u64,
    mt: u8,
    ets: u64,
    lts: u64,
    sym: Seq<u8>,
    exch: Seq<u8>,
    items: Seq<(i64, i64)>,
    c: nat,
    k: int,
) -> Seq<u8> {
    let cs = chunks(items, c);
    header_of(
        (seq0 + k) as u64,
        ets,
        lts,
        mt,
        flags_byte(k == cs.len() - 1, cs[k].len() as u8),
        sym,
        exch,
    ) + items_bytes(cs[k])
}

pub open spec fn packet_is(p: UdpPacket, bytes: Seq<u8>) -> bool {
    p.data@ == bytes && p.size == bytes.len()
}

/// `out[from..]` holds the datagrams of the message, in order.
pub open spec fn emitted(
    out: Seq<UdpPacket>,
    from: int,
    seq0: u64,
    mt: u8,
    ets: u64,
    lts: u64,
    sym: Seq<u8>,
    exch: Seq<u8>,
    items: Seq<(i64, i64)>,
    c: nat,
) -> bool {
    &&& out.len() == from + chunks(items, c).len()
    &&& forall|k: int|
        0 <= k < chunks(items, c).len() ==> packet_is(
            #[trigger] out[from + k],
            datagram(seq0, mt, ets, lts, sym, exch, items, c, k),
        )
}

proof fn lemma_items_bytes_len(items: Seq<(i64, i64)>)
    ensures
        items_bytes(items).len() == 16 * items.len(),
    decreases items.len(),
{
    if items.len() > 0 {
        lemma_items_bytes_len(items.drop_last());
    }
}

pub proof fn lemma_chunks_shape(items: Seq<(i64, i64)>, c: nat)
    requires
        c > 0,
    ensures
        forall|k: int|
            0 <= k < chunks(items, c).len() ==> 0 < (#[trigger] chunks(items, c)[k]).len() <= c,
        items.len() == 0 <==> chunks(items, c).len() == 0,
        chunks(items, c).len() <= items.len(),
    decreases items.len(),
{
    if items.len() > c {
        lemma_chunks_shape(items.skip(c as int), c);
        let rest = chunks(items.skip(c as int), c);
        assert forall|k: int| 0 <= k < chunks(items, c).len() implies 0 < (#[trigger] chunks(
            items,
            c,
        )[k]).len() <= c by {
            if k > 0 {
                assert(chunks(items, c)[k] == rest[k - 1]);
            }
        }
    }
}

/// The chunks, joined, are the items.
pub proof fn lemma_chunks_cover(items: Seq<(i64, i64)>, c: nat)
    requires
        c > 0,
    ensures
        chunks(items, c).flatten() == items,
    decreases items.len(),
{
    if items.len() > 0 {
        if items.len() <= c {
            assert(seq![items].drop_first().flatten() =~= Seq::<(i64, i64)>::empty());
            assert(seq![items].flatten() =~= items);
        } else {
            lemma_chunks_cover(items.skip(c as int), c);
            let cs = chunks(items, c);
            assert(cs.drop_first() =~= chunks(items.skip(c as int), c));
            assert(items.take(c as int) + items.skip(c as int) =~= items);
        }
    }
}

/// A header with the given fields.
fn header_with(seq: u64, ets: u64, lts: u64, mt: u8, flags: u8, sym: [u8; 20], exch: [u8; 20]) -> (r:
    PacketHeader)
    ensures
        header_bytes(r) == header_of(seq, ets, lts, mt, flags, sym@, exch@),
{
    PacketHeader {
        protocol_version: 1,
        sequence_number: seq,
        exchange_timestamp: ets,
        local_timestamp: lts,
        message_type: mt,
        flags_and_count: flags,
        symbol: sym,
        exchange: exch,
    }
}

fn append_items(dst: &mut Vec<u8>, items: &Vec<(i64, i64)>, from: usize, to: usize)
    requires
        from <= to <= items@.len(),
    ensures
        final(dst)@ == old(dst)@ + items_bytes(items@.subrange(from as int, to as int)),
{
    let ghost start = dst@;
    let mut i: usize = from;
    assert(items@.subrange(from as int, from as int) =~= Seq::<(i64, i64)>::empty());
    while i < to
        invariant
            from <= i <= to <= items@.len(),
            dst@ == start + items_bytes(items@.subrange(from as int, i as int)),
        decreases to - i,
    {
        let (p, q) = items[i];
        crate::protocol::TradeTickItem { price: p, quantity_with_flags: q }.append_to_vec(dst);
        proof {
            let s = items@.subrange(from as int, i + 1);
            assert(s.drop_last() =~= items@.subrange(from as int, i as int));
            assert(s.last() == items@[i as int]);
        }
        i = i + 1;
    }
}

/// The number of runs of `c` that `n` items make.
pub open spec fn chunk_total(n: nat, c: nat) -> nat
    decreases n,
{
    if n == 0 || c == 0 {
        0
    } else if n <= c {
        1
    } else {
        1 + chunk_total((n - c) as nat, c)
    }
}

proof fn lemma_chunk_total(items: Seq<(i64, i64)>, c: nat)
    ensures
        chunks(items, c).len() == chunk_total(items.len(), c),
    decreases items.len(),
{
    if items.len() > c && c > 0 {
        lemma_chunk_total(items.skip(c as int), c);
    }
}

fn count_chunks(n: usize, c: usize) -> (r: usize)
    requires
        c > 0,
    ensures
        r == chunk_total(n as nat, c as nat),
        r <= n,
{
    let mut rest = n;
    let mut k: usize = 0;
    while rest > c
        invariant
            c > 0,
            rest <= n,
            k + rest <= n,
            k + chunk_total(rest as nat, c as nat) == chunk_total(n as nat, c as nat),
            rest > 0 || n == 0,
        decreases rest,
    {
        rest = rest - c;
        k = k + 1;
    }
    if rest > 0 {
        k + 1
    } else {
        k
    }
}

/// Whether the sequence counter has room for `k` more datagrams.
pub open spec fn counter_room(seq: u64, k: nat) -> bool {
    seq + k <= u64::MAX
}

/// The builder: a sequence counter shared by every datagram it makes.
pub struct PacketBuilder {
    sequence_counter: u64,
    payload_pool: PayloadPool,
}

impl PacketBuilder {
    /// The sequence number that the next datagram gets.
    pub closed spec fn next_sequence(&self) -> u64 {
        self.sequence_counter
    }

    pub open spec fn wf(&self) -> bool {
        self.next_sequence() >= 1
    }

    /// A builder whose first datagram gets sequence number 1.
    pub fn new() -> (r: Self)
        ensures
            r.next_sequence() == 1,
            r.wf(),
    {
        PacketBuilder {
            sequence_counter: 1,
            payload_pool: PayloadPool::with_capacity(POOL_SLOTS, POOL_BUFFER_CAPACITY),
        }
    }

    /// Gives a sent datagram's buffer back for reuse.
    pub fn release_buffer(&mut self, buf: Vec<u8>)
        ensures
            final(self).next_sequence() == old(self).next_sequence(),
    {
        self.payload_pool.release_buffer(buf);
    }

    pub fn get_sequence_number(&self) -> (r: u64)
        ensures
            r == self.next_sequence(),
    {
        self.sequence_counter
    }

    /// A datagram from a header and the items' bytes; refused when it would exceed
    /// 1472 bytes.
    pub fn create_packet_from_flat(header: &PacketHeader, items_flat: &Vec<u8>) -> (r: Result<
        UdpPacket,
        CryptoFeederError,
    >)
        ensures
            HEADER_SIZE + items_flat@.len() <= MAX_DATAGRAM_SIZE ==> r is Ok && packet_is(
                r->Ok_0,
                header_bytes(*header) + items_flat@,
            ),
            HEADER_SIZE + items_flat@.len() > MAX_DATAGRAM_SIZE ==> r == Err::<UdpPacket, _>(
                CryptoFeederError::SerializationError(SerializationError::PacketTooLarge),
            ),
    {
        if items_flat.len() > MAX_DATAGRAM_SIZE - HEADER_SIZE {
            return Err(CryptoFeederError::SerializationError(SerializationError::PacketTooLarge));
        }
        let mut data: Vec<u8> = Vec::new();
        header.append_to_vec(&mut data);
        let mut i: usize = 0;
        let ghost start = data@;
        while i < items_flat.len()
            invariant
                i <= items_flat@.len(),
                data@ == start + items_flat@.take(i as int),
            decreases items_flat@.len() - i,
        {
            data.push(items_flat[i]);
            assert(items_flat@.take(i + 1) =~= items_flat@.take(i as int).push(items_flat@[i as int]));
            i = i + 1;
        }
        assert(items_flat@.take(items_flat@.len() as int) =~= items_flat@);
        let size = data.len();
        Ok(UdpPacket { data, size })
    }

    /// Appends the datagrams of one message: its items cut into runs of `c`, each run
    /// behind a header with the next sequence number; the last run is flagged.
    fn emit(
        &mut self,
        mt: u8,
        ets: u64,
        lts: u64,
        sym: [u8; 20],
        exch: [u8; 20],
        items: &Vec<(i64, i64)>,
        c: usize,
        out: &mut Vec<UdpPacket>,
    ) -> (r: Result<(), CryptoFeederError>)
        requires
            0 < c <= 80,
            old(self).wf(),
        ensures
            final(self).wf(),
            counter_room(old(self).next_sequence(), chunks(items@, c as nat).len()) ==> {
                &&& r is Ok
                &&& final(self).next_sequence() == old(self).next_sequence() + chunks(
                    items@,
                    c as nat,
                ).len()
                &&& old(out)@ == final(out)@.take(old(out)@.len() as int)
                &&& emitted(
                    final(out)@,
                    old(out)@.len() as int,
                    old(self).next_sequence(),
                    mt,
                    ets,
                    lts,
                    sym@,
                    exch@,
                    items@,
                    c as nat,
                )
            },
            !counter_room(old(self).next_sequence(), chunks(items@, c as nat).len()) ==> {
                &&& r == Err::<(), _>(
                    CryptoFeederError::SerializationError(SerializationError::SequenceExhausted),
                )
                &&& final(self).next_sequence() == old(self).next_sequence()
                &&& final(out)@ == old(out)@
            },
    {
        let n = items.len();
        let total = count_chunks(n, c);
        proof {
            lemma_chunk_total(items@, c as nat);
            lemma_chunks_shape(items@, c as nat);
        }
        if self.sequence_counter > u64::MAX - (total as u64) {
            return Err(CryptoFeederError::SerializationError(SerializationError::SequenceExhausted));
        }
        let ghost seq0 = self.sequence_counter;
        let ghost base = out@.len() as int;
        let ghost old_out = out@;
        let ghost all = chunks(items@, c as nat);
        let mut start: usize = 0;
        let mut k: usize = 0;
        assert(items@.skip(0) =~= items@);
        assert(all.skip(0) =~= all);
        assert(old_out =~= out@.take(base));
        while start < n
            invariant
                n == items@.len(),
                0 < c <= 80,
                all == chunks(items@, c as nat),
                total == all.len(),
                k <= total,
                start <= n,
                seq0 + total <= u64::MAX,
                seq0 >= 1,
                self.sequence_counter == seq0 + k,
                chunks(items@.skip(start as int), c as nat) == all.skip(k as int),
                base == old_out.len(),
                out@.len() == base + k,
                old_out == out@.take(base),
                forall|j: int|
                    0 <= j < k ==> packet_is(
                        #[trigger] out@[base + j],
                        datagram(seq0, mt, ets, lts, sym@, exch@, items@, c as nat, j),
                    ),
                forall|j: int| 0 <= j < all.len() ==> 0 < (#[trigger] all[j]).len() <= c,
                start < n ==> k < total,
            decreases n - start,
        {
            let end: usize = if n - start > c { start + c } else { n };
            let is_last = end == n;
            let cnt = (end - start) as u8;
            let ghost rest = items@.skip(start as int);
            proof {
                assert(all.skip(k as int)[0] == all[k as int]);
                if n - start > c {
                    assert(all[k as int] == rest.take(c as int));
                    assert(rest.take(c as int) =~= items@.subrange(start as int, end as int));
                    assert(rest.skip(c as int) =~= items@.skip(end as int));
                    assert(all.skip(k + 1) =~= all.skip(k as int).drop_first());
                    lemma_chunks_shape(items@.skip(end as int), c as nat);
                } else {
                    assert(all[k as int] == rest);
                    assert(rest =~= items@.subrange(start as int, end as int));
                    assert(all.skip(k as int).len() == 1);
                }
            }
            let flags = if is_last { cnt | 0x80u8 } else { cnt };
            proof {
                assert(cnt <= 80 ==> cnt | 0x80u8 == cnt + 128) by (bit_vector);
                assert(is_last == (k == all.len() - 1));
            }
            let header = header_with(self.sequence_counter, ets, lts, mt, flags, sym, exch);
            let mut flat = self.payload_pool.acquire_buffer((end - start) * ITEM_SIZE);
            append_items(&mut flat, items, start, end);
            proof {
                lemma_items_bytes_len(items@.subrange(start as int, end as int));
            }
            let made = PacketBuilder::create_packet_from_flat(&header, &flat);
            self.payload_pool.release_buffer(flat);
            let packet = match made {
                Ok(p) => p,
                Err(e) => {
                    return Err(e);
                },
            };
            let ghost before = out@;
            out.push(packet);
            proof {
                assert(out@.take(base) =~= before.take(base));
                assert forall|j: int| 0 <= j < k + 1 implies packet_is(
                    #[trigger] out@[base + j],
                    datagram(seq0, mt, ets, lts, sym@, exch@, items@, c as nat, j),
                ) by {
                    if j < k {
                        assert(out@[base + j] == before[base + j]);
                    }
                }
            }
            self.sequence_counter = self.sequence_counter + 1;
            k = k + 1;
            start = end;
        }
        proof {
            if k < total {
                assert(items@.skip(n as int).len() == 0);
                assert(all.skip(k as int).len() == 0);
            }
        }
        Ok(())
    }
}


/// Stable-order keys of trades: buyer-taker trades first by ascending price, then the
/// others by descending price.
pub open spec fn trade_keys(trades: Seq<StandardizedTrade>) -> Seq<(bool, i64)> {
    Seq::new(trades.len(), |i: int| (trades[i].is_buyer_taker, trades[i].price))
}

/// Trade items in the order `idx`.
pub open spec fn trade_items(trades: Seq<StandardizedTrade>, idx: Seq<usize>) -> Seq<(i64, i64)> {
    Seq::new(
        idx.len(),
        |j: int|
            (
                trades[idx[j] as int].price,
                packed_quantity(trades[idx[j] as int].quantity, trades[idx[j] as int].is_buyer_taker),
            ),
    )
}

/// The levels with a positive quantity, in order.
pub open spec fn positive_levels(levels: Seq<OrderBookLevel>) -> Seq<OrderBookLevel>
    decreases levels.len(),
{
    if levels.len() == 0 {
        Seq::empty()
    } else if levels.last().quantity > 0 {
        positive_levels(levels.drop_last()).push(levels.last())
    } else {
        positive_levels(levels.drop_last())
    }
}

/// Keys of one side of the book: asks (`true`) ascend, bids (`false`) descend.
pub open spec fn level_keys(levels: Seq<OrderBookLevel>, is_ask: bool) -> Seq<(bool, i64)> {
    Seq::new(levels.len(), |i: int| (is_ask, levels[i].price))
}

pub open spec fn level_items(levels: Seq<OrderBookLevel>, idx: Seq<usize>, is_ask: bool) -> Seq<(i64, i64)> {
    Seq::new(
        idx.len(),
        |j: int| (levels[idx[j] as int].price, packed_quantity(levels[idx[j] as int].quantity, is_ask)),
    )
}

/// The wire items of a trade batch, in the stable order.
pub open spec fn batch_items(trades: Seq<StandardizedTrade>, items: Seq<(i64, i64)>) -> bool {
    exists|idx: Seq<usize>|
        stably_ordered(trade_keys(trades), idx) && items == trade_items(trades, idx)
}

/// The wire items of an order-book delta: positive bids by descending price, then
/// positive asks by ascending price.
pub open spec fn book_items(bids: Seq<OrderBookLevel>, asks: Seq<OrderBookLevel>, items: Seq<(i64, i64)>) -> bool {
    let pb = positive_levels(bids);
    let pa = positive_levels(asks);
    exists|bi: Seq<usize>, ai: Seq<usize>|
        stably_ordered(level_keys(pb, false), bi) && stably_ordered(level_keys(pa, true), ai) && items
            == level_items(pb, bi, false) + level_items(pa, ai, true)
}

/// The NUL-padded name field of a string.
pub open spec fn name_of(s: Seq<char>) -> Seq<u8> {
    name_field(encode_utf8(s))
}

/// `r` holds the datagrams of one message and the counter moved past them, or the
/// counter had no room and nothing changed.
pub open spec fn message_outcome(
    r: Result<Vec<UdpPacket>, CryptoFeederError>,
    seq0: u64,
    seq1: u64,
    mt: u8,
    ets: u64,
    lts: u64,
    sym: Seq<char>,
    exch: Seq<char>,
    items: Seq<(i64, i64)>,
    c: nat,
) -> bool {
    if counter_room(seq0, chunks(items, c).len()) {
        &&& r is Ok
        &&& seq1 == seq0 + chunks(items, c).len()
        &&& emitted(r->Ok_0@, 0, seq0, mt, ets, lts, name_of(sym), name_of(exch), items, c)
    } else {
        &&& r == Err::<Vec<UdpPacket>, _>(
            CryptoFeederError::SerializationError(SerializationError::SequenceExhausted),
        )
        &&& seq1 == seq0
    }
}

fn trade_keys_exec(trades: &Vec<StandardizedTrade>) -> (r: Vec<(bool, i64)>)
    ensures
        r@ == trade_keys(trades@),
{
    let mut keys: Vec<(bool, i64)> = Vec::new();
    let mut i: usize = 0;
    while i < trades.len()
        invariant
            i <= trades@.len(),
            keys@ == trade_keys(trades@).take(i as int),
        decreases trades@.len() - i,
    {
        keys.push((trades[i].is_buyer_taker, trades[i].price));
        assert(trade_keys(trades@).take(i + 1) =~= trade_keys(trades@).take(i as int).push(
            (trades@[i as int].is_buyer_taker, trades@[i as int].price),
        ));
        i = i + 1;
    }
    assert(trade_keys(trades@).take(trades@.len() as int) =~= trade_keys(trades@));
    keys
}

fn trade_items_exec(trades: &Vec<StandardizedTrade>, idx: &Vec<usize>) -> (r: Vec<(i64, i64)>)
    requires
        forall|j: int| 0 <= j < idx@.len() ==> (#[trigger] idx@[j]) < trades@.len(),
    ensures
        r@ == trade_items(trades@, idx@),
{
    let mut items: Vec<(i64, i64)> = Vec::new();
    let mut j: usize = 0;
    while j < idx.len()
        invariant
            j <= idx@.len(),
            forall|m: int| 0 <= m < idx@.len() ==> (#[trigger] idx@[m]) < trades@.len(),
            items@ == trade_items(trades@, idx@).take(j as int),
        decreases idx@.len() - j,
    {
        let t = &trades[idx[j]];
        let q = crate::protocol::TradeTickItem::new(t.price, t.quantity, t.is_buyer_taker);
        items.push((t.price, q.quantity_with_flags));
        assert(trade_items(trades@, idx@).take(j + 1) =~= trade_items(trades@, idx@).take(
            j as int,
        ).push(trade_items(trades@, idx@)[j as int]));
        j = j + 1;
    }
    assert(trade_items(trades@, idx@).take(idx@.len() as int) =~= trade_items(trades@, idx@));
    items
}

fn positive_levels_exec(levels: &Vec<OrderBookLevel>) -> (r: Vec<OrderBookLevel>)
    ensures
        r@ == positive_levels(levels@),
{
    let mut out: Vec<OrderBookLevel> = Vec::new();
    let mut i: usize = 0;
    while i < levels.len()
        invariant
            i <= levels@.len(),
            out@ == positive_levels(levels@.take(i as int)),
        decreases levels@.len() - i,
    {
        proof {
            assert(levels@.take(i + 1).drop_last() =~= levels@.take(i as int));
        }
        if levels[i].quantity > 0 {
            out.push(levels[i]);
        }
        i = i + 1;
    }
    assert(levels@.take(levels@.len() as int) =~= levels@);
    out
}

fn level_keys_exec(levels: &Vec<OrderBookLevel>, is_ask: bool) -> (r: Vec<(bool, i64)>)
    ensures
        r@ == level_keys(levels@, is_ask),
{
    let mut keys: Vec<(bool, i64)> = Vec::new();
    let mut i: usize = 0;
    while i < levels.len()
        invariant
            i <= levels@.len(),
            keys@ == level_keys(levels@, is_ask).take(i as int),
        decreases levels@.len() - i,
    {
        keys.push((is_ask, levels[i].price));
        assert(level_keys(levels@, is_ask).take(i + 1) =~= level_keys(levels@, is_ask).take(
            i as int,
        ).push((is_ask, levels@[i as int].price)));
        i = i + 1;
    }
    assert(level_keys(levels@, is_ask).take(levels@.len() as int) =~= level_keys(levels@, is_ask));
    keys
}

fn level_items_exec(levels: &Vec<OrderBookLevel>, idx: &Vec<usize>, is_ask: bool, out: &mut Vec<(i64, i64)>)
    requires
        forall|j: int| 0 <= j < idx@.len() ==> (#[trigger] idx@[j]) < levels@.len(),
    ensures
        final(out)@ == old(out)@ + level_items(levels@, idx@, is_ask),
{
    let ghost start = out@;
    let mut j: usize = 0;
    while j < idx.len()
        invariant
            j <= idx@.len(),
            forall|m: int| 0 <= m < idx@.len() ==> (#[trigger] idx@[m]) < levels@.len(),
            out@ == start + level_items(levels@, idx@, is_ask).take(j as int),
        decreases idx@.len() - j,
    {
        let l = levels[idx[j]];
        let q = crate::protocol::OrderBookItem::new(l.price, l.quantity, is_ask);
        out.push((l.price, q.quantity_with_flags));
        assert(level_items(levels@, idx@, is_ask).take(j + 1) =~= level_items(levels@, idx@, is_ask).take(
            j as int,
        ).push(level_items(levels@, idx@, is_ask)[j as int]));
        j = j + 1;
    }
    assert(level_items(levels@, idx@, is_ask).take(idx@.len() as int) =~= level_items(levels@, idx@, is_ask));
}

impl PacketBuilder {
    fn emit_message(
        &mut self,
        mt: u8,
        ets: u64,
        lts: u64,
        symbol: &str,
        exchange: &str,
        items: &Vec<(i64, i64)>,
        c: usize,
    ) -> (r: Result<Vec<UdpPacket>, CryptoFeederError>)
        requires
            0 < c <= 80,
            old(self).wf(),
        ensures
            final(self).wf(),
            message_outcome(
                r,
                old(self).next_sequence(),
                final(self).next_sequence(),
                mt,
                ets,
                lts,
                symbol@,
                exchange@,
                items@,
                c as nat,
            ),
    {
        let sym = encode_name_field(symbol);
        let exch = encode_name_field(exchange);
        let mut out: Vec<UdpPacket> = Vec::new();
        match self.emit(mt, ets, lts, sym, exch, items, c, &mut out) {
            Ok(()) => Ok(out),
            Err(e) => Err(e),
        }
    }

    /// The datagrams of a trade batch: its trades in the stable order (buyer-taker
    /// trades by ascending price, then the others by descending price), 80 per
    /// datagram, under the batch's symbol, venue and exchange timestamp.
    pub fn build_trade_batch_packets_at(&mut self, batch: &StandardizedTradeBatch, local_timestamp: u64) -> (r: Result<
        Vec<UdpPacket>,
        CryptoFeederError,
    >)
        requires
            old(self).wf(),
        ensures
            final(self).wf(),
            exists|items: Seq<(i64, i64)>|
                batch_items(batch.trades@, items) && message_outcome(
                    r,
                    old(self).next_sequence(),
                    final(self).next_sequence(),
                    MESSAGE_TYPE_TRADE_TICK,
                    batch.exchange_timestamp,
                    local_timestamp,
                    batch.symbol@,
                    batch.exchange@,
                    items,
                    CHUNK_ITEMS as nat,
                ),
    {
        let keys = trade_keys_exec(&batch.trades);
        let idx = stable_order(&keys);
        let items = trade_items_exec(&batch.trades, &idx);
        let r = self.emit_message(
            MESSAGE_TYPE_TRADE_TICK,
            batch.exchange_timestamp,
            local_timestamp,
            batch.symbol.as_str(),
            batch.exchange.as_str(),
            &items,
            CHUNK_ITEMS,
        );
        assert(batch_items(batch.trades@, items@));
        r
    }

    /// The datagrams of an order-book delta: levels with a positive quantity, bids by
    /// descending price and then asks by ascending price, 80 per datagram.
    pub fn build_order_book_packets_at(&mut self, book: &StandardizedOrderBookUpdate, local_timestamp: u64) -> (r: Result<
        Vec<UdpPacket>,
        CryptoFeederError,
    >)
        requires
            old(self).wf(),
        ensures
            final(self).wf(),
            exists|items: Seq<(i64, i64)>|
                book_items(book.bids@, book.asks@, items) && message_outcome(
                    r,
                    old(self).next_sequence(),
                    final(self).next_sequence(),
                    MESSAGE_TYPE_ORDER_BOOK,
                    book.timestamp,
                    local_timestamp,
                    book.symbol@,
                    book.exchange@,
                    items,
                    CHUNK_ITEMS as nat,
                ),
    {
        let bids = positive_levels_exec(&book.bids);
        let asks = positive_levels_exec(&book.asks);
        let bid_keys = level_keys_exec(&bids, false);
        let ask_keys = level_keys_exec(&asks, true);
        let bi = stable_order(&bid_keys);
        let ai = stable_order(&ask_keys);
        let mut items: Vec<(i64, i64)> = Vec::new();
        level_items_exec(&bids, &bi, false, &mut items);
        level_items_exec(&asks, &ai, true, &mut items);
        assert(items@ =~= level_items(bids@, bi@, false) + level_items(asks@, ai@, true));
        let r = self.emit_message(
            MESSAGE_TYPE_ORDER_BOOK,
            book.timestamp,
            local_timestamp,
            book.symbol.as_str(),
            book.exchange.as_str(),
            &items,
            CHUNK_ITEMS,
        );
        assert(book_items(book.bids@, book.asks@, items@));
        r
    }

    /// One datagram with one item: a price-like value (message types 2 to 4) or a
    /// liquidation (type 5).
    pub fn build_single_item_packet_at(
        &mut self,
        symbol: &str,
        exchange: &str,
        message_type: u8,
        exchange_timestamp: u64,
        local_timestamp: u64,
        price: i64,
        quantity_with_flags: i64,
    ) -> (r: Result<Vec<UdpPacket>, CryptoFeederError>)
        requires
            old(self).wf(),
        ensures
            final(self).wf(),
            message_outcome(
                r,
                old(self).next_sequence(),
                final(self).next_sequence(),
                message_type,
                exchange_timestamp,
                local_timestamp,
                symbol@,
                exchange@,
                seq![(price, quantity_with_flags)],
                CHUNK_ITEMS as nat,
            ),
    {
        let mut items: Vec<(i64, i64)> = Vec::new();
        items.push((price, quantity_with_flags));
        assert(items@ =~= seq![(price, quantity_with_flags)]);
        self.emit_message(
            message_type,
            exchange_timestamp,
            local_timestamp,
            symbol,
            exchange,
            &items,
            CHUNK_ITEMS,
        )
    }
}


proof fn lemma_flags_byte(is_last: bool, count: u8)
    requires
        count <= 80,
    ensures
        flag_is_last(flags_byte(is_last, count)) == is_last,
        flag_item_count(flags_byte(is_last, count)) == count,
{
}

/// Every datagram of a message fits in 1472 bytes, and its item count, at most 80,
/// matches its length.
pub proof fn lemma_datagram_bounds(
    seq0: u64,
    mt: u8,
    ets: u64,
    lts: u64,
    sym: Seq<u8>,
    exch: Seq<u8>,
    items: Seq<(i64, i64)>,
    c: nat,
    k: int,
)
    requires
        0 < c <= 80,
        sym.len() == 20,
        exch.len() == 20,
        0 <= k < chunks(items, c).len(),
    ensures
        ({
            let d = datagram(seq0, mt, ets, lts, sym, exch, items, c, k);
            &&& d.len() <= MAX_DATAGRAM_SIZE
            &&& flag_item_count(d[26]) <= 80
            &&& d.len() == HEADER_SIZE + ITEM_SIZE * flag_item_count(d[26])
        }),
{
    lemma_chunks_shape(items, c);
    let cs = chunks(items, c);
    lemma_items_bytes_len(cs[k]);
    lemma_flags_byte(k == cs.len() - 1, cs[k].len() as u8);
    let d = datagram(seq0, mt, ets, lts, sym, exch, items, c, k);
    assert(d[26] == flags_byte(k == cs.len() - 1, cs[k].len() as u8));
}

/// Exactly one datagram of a message carries the last flag: the final one.
pub proof fn lemma_last_flag_exact(
    seq0: u64,
    mt: u8,
    ets: u64,
    lts: u64,
    sym: Seq<u8>,
    exch: Seq<u8>,
    items: Seq<(i64, i64)>,
    c: nat,
    k: int,
)
    requires
        0 < c <= 80,
        0 <= k < chunks(items, c).len(),
    ensures
        flag_is_last(datagram(seq0, mt, ets, lts, sym, exch, items, c, k)[26]) <==> k == chunks(
            items,
            c,
        ).len() - 1,
{
    lemma_chunks_shape(items, c);
    let cs = chunks(items, c);
    lemma_flags_byte(k == cs.len() - 1, cs[k].len() as u8);
    let d = datagram(seq0, mt, ets, lts, sym, exch, items, c, k);
    assert(d[26] == flags_byte(k == cs.len() - 1, cs[k].len() as u8));
}

/// Datagram `k` of a message carries sequence number `seq0 + k`: numbers rise by one
/// per datagram, in emission order.
pub proof fn lemma_sequence_numbers(
    seq0: u64,
    mt: u8,
    ets: u64,
    lts: u64,
    sym: Seq<u8>,
    exch: Seq<u8>,
    items: Seq<(i64, i64)>,
    c: nat,
    k: int,
)
    requires
        0 <= k < chunks(items, c).len(),
    ensures
        datagram(seq0, mt, ets, lts, sym, exch, items, c, k).subrange(1, 9) == le_u64(
            (seq0 + k) as u64,
        ),
{
    let d = datagram(seq0, mt, ets, lts, sym, exch, items, c, k);
    assert(d.subrange(1, 9) =~= le_u64((seq0 + k) as u64));
}

/// Sequence numbers keep rising from one message to the next: a message numbered
/// from `seq0` is followed by one numbered from `seq0` plus its datagram count, so
/// every datagram of the second carries a larger number than any of the first.
pub proof fn lemma_sequence_across_messages(
    seq0: u64,
    a: Seq<(i64, i64)>,
    ca: nat,
    b: Seq<(i64, i64)>,
    cb: nat,
    i: int,
    j: int,
)
    requires
        0 <= i < chunks(a, ca).len(),
        0 <= j < chunks(b, cb).len(),
        seq0 + chunks(a, ca).len() + chunks(b, cb).len() <= u64::MAX,
    ensures
        seq0 + i < (seq0 + chunks(a, ca).len()) + j,
{
}

/// The datagrams of a message, joined, carry its items in order.
pub proof fn lemma_items_in_order(items: Seq<(i64, i64)>, c: nat)
    requires
        c > 0,
    ensures
        chunks(items, c).flatten() == items,
{
    lemma_chunks_cover(items, c);
}

/// Within a trade batch, buyer-taker items come first with non-decreasing prices,
/// then the other items with non-increasing prices.
pub proof fn lemma_trade_items_order(trades: Seq<StandardizedTrade>, items: Seq<(i64, i64)>, i: int, j: int)
    requires
        batch_items(trades, items),
        0 <= i < j < items.len(),
    ensures
        flag_of(items[j].1) ==> flag_of(items[i].1),
        flag_of(items[i].1) && flag_of(items[j].1) ==> items[i].0 <= items[j].0,
        !flag_of(items[i].1) && !flag_of(items[j].1) ==> items[i].0 >= items[j].0,
{
    let idx = choose|idx: Seq<usize>|
        stably_ordered(trade_keys(trades), idx) && items == trade_items(trades, idx);
    lemma_stable_order_shape(trade_keys(trades), idx, i, j);
    let ti = trades[idx[i] as int];
    let tj = trades[idx[j] as int];
    lemma_packed_quantity(ti.quantity, ti.is_buyer_taker);
    lemma_packed_quantity(tj.quantity, tj.is_buyer_taker);
}

proof fn lemma_positive_levels(levels: Seq<OrderBookLevel>)
    ensures
        forall|i: int|
            0 <= i < positive_levels(levels).len() ==> (#[trigger] positive_levels(levels)[i]).quantity
                > 0,
    decreases levels.len(),
{
    if levels.len() > 0 {
        lemma_positive_levels(levels.drop_last());
        let prev = positive_levels(levels.drop_last());
        if levels.last().quantity > 0 {
            assert forall|i: int| 0 <= i < prev.push(levels.last()).len() implies (
            #[trigger] prev.push(levels.last())[i]).quantity > 0 by {
                if i < prev.len() {
                    assert(prev.push(levels.last())[i] == prev[i]);
                }
            }
        }
    }
}

/// In an order-book delta, bids come before asks, bid prices do not rise, ask prices
/// do not fall, and no item has a zero quantity.
pub proof fn lemma_book_items_order(
    bids: Seq<OrderBookLevel>,
    asks: Seq<OrderBookLevel>,
    items: Seq<(i64, i64)>,
    i: int,
    j: int,
)
    requires
        book_items(bids, asks, items),
        0 <= i < j < items.len(),
    ensures
        flag_of(items[i].1) ==> flag_of(items[j].1),
        !flag_of(items[i].1) && !flag_of(items[j].1) ==> items[i].0 >= items[j].0,
        flag_of(items[i].1) && flag_of(items[j].1) ==> items[i].0 <= items[j].0,
        magnitude_bits(items[i].1) > 0,
        magnitude_bits(items[j].1) > 0,
{
    let pb = positive_levels(bids);
    let pa = positive_levels(asks);
    let (bi, ai) = choose|bi: Seq<usize>, ai: Seq<usize>|
        stably_ordered(level_keys(pb, false), bi) && stably_ordered(level_keys(pa, true), ai) && items
            == level_items(pb, bi, false) + level_items(pa, ai, true);
    lemma_positive_levels(bids);
    lemma_positive_levels(asks);
    let nb = bi.len() as int;
    let lb = level_items(pb, bi, false);
    let la = level_items(pa, ai, true);
    assert forall|m: int| 0 <= m < items.len() implies (flag_of(#[trigger] items[m].1) <==> m >= nb)
        && magnitude_bits(items[m].1) > 0 by {
        if m < nb {
            let l = pb[bi[m] as int];
            assert(items[m] == lb[m]);
            lemma_packed_quantity(l.quantity, false);
        } else {
            let l = pa[ai[m - nb] as int];
            assert(items[m] == la[m - nb]);
            lemma_packed_quantity(l.quantity, true);
        }
    }
    if j < nb {
        lemma_stable_order_shape(level_keys(pb, false), bi, i, j);
        assert(items[i] == lb[i]);
        assert(items[j] == lb[j]);
    } else if i >= nb {
        lemma_stable_order_shape(level_keys(pa, true), ai, i - nb, j - nb);
        assert(items[i] == la[i - nb]);
        assert(items[j] == la[j - nb]);
    }
}


/// The message type, exchange timestamp, symbol, venue and item of a record that
/// makes a single item.
pub open spec fn single_parts(d: ParsedData) -> Option<(u8, u64, Seq<char>, Seq<char>, (i64, i64))> {
    match d {
        ParsedData::Trade(t) => Some(
            (
                MESSAGE_TYPE_TRADE_TICK,
                t.timestamp,
                t.symbol@,
                t.exchange@,
                (t.price, packed_quantity(t.quantity, t.is_buyer_taker)),
            ),
        ),
        ParsedData::IndexPrice { symbol, exchange, value, timestamp } => Some(
            (MESSAGE_TYPE_INDEX_PRICE, timestamp, symbol@, exchange@, (value, 0i64)),
        ),
        ParsedData::MarkPrice { symbol, exchange, value, timestamp } => Some(
            (MESSAGE_TYPE_MARK_PRICE, timestamp, symbol@, exchange@, (value, 0i64)),
        ),
        ParsedData::FundingRate { symbol, exchange, value, timestamp } => Some(
            (MESSAGE_TYPE_FUNDING_RATE, timestamp, symbol@, exchange@, (value, 0i64)),
        ),
        ParsedData::Liquidation { symbol, exchange, price, quantity, is_sell, timestamp } => Some(
            (
                MESSAGE_TYPE_LIQUIDATION,
                timestamp,
                symbol@,
                exchange@,
                (price, packed_quantity(quantity, is_sell)),
            ),
        ),
        _ => None,
    }
}

/// What building a record gives, numbering datagrams from `seq0` and leaving the
/// counter at `seq1`.
pub open spec fn record_outcome(
    d: ParsedData,
    r: Result<Vec<UdpPacket>, CryptoFeederError>,
    seq0: u64,
    seq1: u64,
    lts: u64,
) -> bool {
    match d {
        ParsedData::Trade(t) => message_outcome(
            r,
            seq0,
            seq1,
            MESSAGE_TYPE_TRADE_TICK,
            t.timestamp,
            lts,
            t.symbol@,
            t.exchange@,
            seq![(t.price, packed_quantity(t.quantity, t.is_buyer_taker))],
            SINGLE_TRADE_CHUNK_ITEMS as nat,
        ),
        ParsedData::TradeBatch(b) => exists|items: Seq<(i64, i64)>|
            batch_items(b.trades@, items) && message_outcome(
                r,
                seq0,
                seq1,
                MESSAGE_TYPE_TRADE_TICK,
                b.exchange_timestamp,
                lts,
                b.symbol@,
                b.exchange@,
                items,
                CHUNK_ITEMS as nat,
            ),
        ParsedData::OrderBook(ob) => exists|items: Seq<(i64, i64)>|
            book_items(ob.bids@, ob.asks@, items) && message_outcome(
                r,
                seq0,
                seq1,
                MESSAGE_TYPE_ORDER_BOOK,
                ob.timestamp,
                lts,
                ob.symbol@,
                ob.exchange@,
                items,
                CHUNK_ITEMS as nat,
            ),
        ParsedData::Multi(members) => if exists|i: int|
            0 <= i < members@.len() && (#[trigger] single_parts(members@[i])) is None {
            r == Err::<Vec<UdpPacket>, _>(
                CryptoFeederError::SerializationError(SerializationError::NestedBatch),
            ) && seq1 == seq0
        } else if !counter_room(seq0, members@.len()) {
            r == Err::<Vec<UdpPacket>, _>(
                CryptoFeederError::SerializationError(SerializationError::SequenceExhausted),
            ) && seq1 == seq0
        } else {
            &&& r is Ok
            &&& r->Ok_0@.len() == members@.len()
            &&& seq1 == seq0 + members@.len()
            &&& forall|i: int|
                0 <= i < members@.len() ==> {
                    let p = single_parts(members@[i])->0;
                    packet_is(
                        #[trigger] r->Ok_0@[i],
                        datagram(
                            (seq0 + i) as u64,
                            p.0,
                            p.1,
                            lts,
                            name_of(p.2),
                            name_of(p.3),
                            seq![p.4],
                            CHUNK_ITEMS as nat,
                            0,
                        ),
                    )
                }
        },
        _ => {
            let p = single_parts(d)->0;
            message_outcome(r, seq0, seq1, p.0, p.1, lts, p.2, p.3, seq![p.4], CHUNK_ITEMS as nat)
        },
    }
}

fn single_parts_exec(d: &ParsedData) -> (r: Option<(u8, u64, &String, &String, (i64, i64))>)
    ensures
        r is Some == single_parts(*d) is Some,
        r is Some ==> ({
            let x = r->0;
            let p = single_parts(*d)->0;
            x.0 == p.0 && x.1 == p.1 && x.2@ == p.2 && x.3@ == p.3 && x.4 == p.4
        }),
{
    match d {
        ParsedData::Trade(t) => {
            let q = crate::protocol::TradeTickItem::new(t.price, t.quantity, t.is_buyer_taker);
            Some((MESSAGE_TYPE_TRADE_TICK, t.timestamp, &t.symbol, &t.exchange, (t.price, q.quantity_with_flags)))
        },
        ParsedData::IndexPrice { symbol, exchange, value, timestamp } => Some(
            (MESSAGE_TYPE_INDEX_PRICE, *timestamp, symbol, exchange, (*value, 0i64)),
        ),
        ParsedData::MarkPrice { symbol, exchange, value, timestamp } => Some(
            (MESSAGE_TYPE_MARK_PRICE, *timestamp, symbol, exchange, (*value, 0i64)),
        ),
        ParsedData::FundingRate { symbol, exchange, value, timestamp } => Some(
            (MESSAGE_TYPE_FUNDING_RATE, *timestamp, symbol, exchange, (*value, 0i64)),
        ),
        ParsedData::Liquidation { symbol, exchange, price, quantity, is_sell, timestamp } => {
            let q = crate::protocol::OrderBookItem::new(*price, *quantity, *is_sell);
            Some((MESSAGE_TYPE_LIQUIDATION, *timestamp, symbol, exchange, (*price, q.quantity_with_flags)))
        },
        _ => None,
    }
}

impl PacketBuilder {
    fn build_multi_at(&mut self, members: &Vec<ParsedData>, lts: u64) -> (r: Result<
        Vec<UdpPacket>,
        CryptoFeederError,
    >)
        requires
            old(self).wf(),
        ensures
            final(self).wf(),
            record_outcome(
                ParsedData::Multi(*members),
                r,
                old(self).next_sequence(),
                final(self).next_sequence(),
                lts,
            ),
    {
        let n = members.len();
        let mut i: usize = 0;
        while i < n
            invariant
                n == members@.len(),
                i <= n,
                self.wf(),
                self.next_sequence() == old(self).next_sequence(),
                forall|m: int| 0 <= m < i ==> (#[trigger] single_parts(members@[m])) is Some,
            decreases n - i,
        {
            if single_parts_exec(&members[i]).is_none() {
                return Err(CryptoFeederError::SerializationError(SerializationError::NestedBatch));
            }
            i = i + 1;
        }
        if self.sequence_counter > u64::MAX - (n as u64) {
            return Err(CryptoFeederError::SerializationError(SerializationError::SequenceExhausted));
        }
        let ghost seq0 = self.sequence_counter;
        let mut out: Vec<UdpPacket> = Vec::new();
        let mut j: usize = 0;
        while j < n
            invariant
                n == members@.len(),
                j <= n,
                seq0 + n <= u64::MAX,
                seq0 >= 1,
                self.sequence_counter == seq0 + j,
                self.wf(),
                forall|m: int| 0 <= m < n ==> (#[trigger] single_parts(members@[m])) is Some,
                out@.len() == j,
                forall|m: int|
                    0 <= m < j ==> {
                        let p = single_parts(members@[m])->0;
                        packet_is(
                            #[trigger] out@[m],
                            datagram(
                                (seq0 + m) as u64,
                                p.0,
                                p.1,
                                lts,
                                name_of(p.2),
                                name_of(p.3),
                                seq![p.4],
                                CHUNK_ITEMS as nat,
                                0,
                            ),
                        )
                    },
            decreases n - j,
        {
            let parts = single_parts_exec(&members[j]);
            assert(single_parts(members@[j as int]) is Some);
            let (mt, ets, sym, exch, item) = parts.unwrap();
            let sym20 = encode_name_field(sym.as_str());
            let exch20 = encode_name_field(exch.as_str());
            let mut items: Vec<(i64, i64)> = Vec::new();
            items.push(item);
            let ghost before = out@;
            proof {
                assert(items@ =~= seq![item]);
                assert(chunks(items@, 80).len() == 1);
            }
            let e = self.emit(mt, ets, lts, sym20, exch20, &items, CHUNK_ITEMS, &mut out);
            proof {
                let p = single_parts(members@[j as int])->0;
                assert(sym@ == p.2);
                assert(exch@ == p.3);
                assert(packet_is(out@[before.len() as int + 0], datagram((seq0 + j) as u64, mt, ets, lts, sym20@, exch20@, items@, CHUNK_ITEMS as nat, 0)));
                assert(out@[j as int] == out@[before.len() as int + 0]);
                assert(sym20@ == name_of(p.2));
                assert(exch20@ == name_of(p.3));
                assert(items@ == seq![p.4]);
                assert forall|m: int| 0 <= m < j + 1 implies {
                    let q = single_parts(members@[m])->0;
                    packet_is(
                        #[trigger] out@[m],
                        datagram(
                            (seq0 + m) as u64,
                            q.0,
                            q.1,
                            lts,
                            name_of(q.2),
                            name_of(q.3),
                            seq![q.4],
                            CHUNK_ITEMS as nat,
                            0,
                        ),
                    )
                } by {
                    if m < j {
                        assert(before == out@.take(before.len() as int));
                        assert(out@[m] == before[m]);
                    }
                }
            }
            j = j + 1;
        }
        Ok(out)
    }

    /// The datagrams of a record, stamped with local time `local_timestamp`.
    pub fn build_packets_at(&mut self, data: &ParsedData, local_timestamp: u64) -> (r: Result<
        Vec<UdpPacket>,
        CryptoFeederError,
    >)
        requires
            old(self).wf(),
        ensures
            final(self).wf(),
            record_outcome(
                *data,
                r,
                old(self).next_sequence(),
                final(self).next_sequence(),
                local_timestamp,
            ),
    {
        match data {
            ParsedData::Trade(t) => {
                let q = crate::protocol::TradeTickItem::new(t.price, t.quantity, t.is_buyer_taker);
                let mut items: Vec<(i64, i64)> = Vec::new();
                items.push((t.price, q.quantity_with_flags));
                assert(items@ =~= seq![(t.price, packed_quantity(t.quantity, t.is_buyer_taker))]);
                self.emit_message(
                    MESSAGE_TYPE_TRADE_TICK,
                    t.timestamp,
                    local_timestamp,
                    t.symbol.as_str(),
                    t.exchange.as_str(),
                    &items,
                    SINGLE_TRADE_CHUNK_ITEMS,
                )
            },
            ParsedData::TradeBatch(b) => self.build_trade_batch_packets_at(b, local_timestamp),
            ParsedData::OrderBook(ob) => self.build_order_book_packets_at(ob, local_timestamp),
            ParsedData::Multi(members) => self.build_multi_at(members, local_timestamp),
            _ => {
                let parts = single_parts_exec(data);
                let (mt, ets, sym, exch, item) = parts.unwrap();
                self.build_single_item_packet_at(
                    sym.as_str(),
                    exch.as_str(),
                    mt,
                    ets,
                    local_timestamp,
                    item.0,
                    item.1,
                )
            },
        }
    }

    /// The datagrams of a trade that arrived on its own: one item, under the trade's
    /// symbol, venue and timestamp, stamped with the current time.
    pub fn build_trade_packets(&mut self, trade: &StandardizedTrade) -> (r: Result<Vec<UdpPacket>, CryptoFeederError>)
        requires
            old(self).wf(),
        ensures
            final(self).wf(),
            exists|t: u64|
                message_outcome(
                    r,
                    old(self).next_sequence(),
                    final(self).next_sequence(),
                    MESSAGE_TYPE_TRADE_TICK,
                    trade.timestamp,
                    t,
                    trade.symbol@,
                    trade.exchange@,
                    seq![(trade.price, packed_quantity(trade.quantity, trade.is_buyer_taker))],
                    SINGLE_TRADE_CHUNK_ITEMS as nat,
                ),
    {
        let now = now_nanos();
        let q = crate::protocol::TradeTickItem::new(trade.price, trade.quantity, trade.is_buyer_taker);
        let mut items: Vec<(i64, i64)> = Vec::new();
        items.push((trade.price, q.quantity_with_flags));
        assert(items@ =~= seq![(trade.price, packed_quantity(trade.quantity, trade.is_buyer_taker))]);
        self.emit_message(
            MESSAGE_TYPE_TRADE_TICK,
            trade.timestamp,
            now,
            trade.symbol.as_str(),
            trade.exchange.as_str(),
            &items,
            SINGLE_TRADE_CHUNK_ITEMS,
        )
    }

    /// The datagrams of a trade batch, stamped with the current time.
    pub fn build_trade_batch_packets(&mut self, batch: &StandardizedTradeBatch) -> (r: Result<Vec<UdpPacket>, CryptoFeederError>)
        requires
            old(self).wf(),
        ensures
            final(self).wf(),
            exists|t: u64, items: Seq<(i64, i64)>|
                batch_items(batch.trades@, items) && message_outcome(
                    r,
                    old(self).next_sequence(),
                    final(self).next_sequence(),
                    MESSAGE_TYPE_TRADE_TICK,
                    batch.exchange_timestamp,
                    t,
                    batch.symbol@,
                    batch.exchange@,
                    items,
                    CHUNK_ITEMS as nat,
                ),
    {
        let now = now_nanos();
        self.build_trade_batch_packets_at(batch, now)
    }

    /// The datagrams of a record, stamped with the current wall-clock time.
    pub fn build_packets(&mut self, data: &ParsedData) -> (r: Result<Vec<UdpPacket>, CryptoFeederError>)
        requires
            old(self).wf(),
        ensures
            final(self).wf(),
            exists|t: u64|
                record_outcome(
                    *data,
                    r,
                    old(self).next_sequence(),
                    final(self).next_sequence(),
                    t,
                ),
    {
        let now = now_nanos();
        self.build_packets_at(data, now)
    }

    /// An event datagram: one 16-byte payload, flagged last with one item, under the
    /// event's symbol and venue name `exchange_display`, both timestamps `now`.
    pub fn build_event_packet_at(&mut self, event: &SystemEvent, exchange_display: &str, now: u64) -> (r: Result<
        UdpPacket,
        CryptoFeederError,
    >)
        requires
            old(self).wf(),
        ensures
            final(self).wf(),
            counter_room(old(self).next_sequence(), 1) ==> {
                &&& r is Ok
                &&& final(self).next_sequence() == old(self).next_sequence() + 1
                &&& packet_is(
                    r->Ok_0,
                    header_of(
                        old(self).next_sequence(),
                        now,
                        now,
                        event_message_type(*event),
                        flags_byte(true, 1),
                        name_of(event_symbol(*event)),
                        name_of(exchange_display@),
                    ) + payload_bytes(*event),
                )
            },
            !counter_room(old(self).next_sequence(), 1) ==> r == Err::<UdpPacket, _>(
                CryptoFeederError::SerializationError(SerializationError::SequenceExhausted),
            ) && final(self).next_sequence() == old(self).next_sequence(),
    {
        if self.sequence_counter == u64::MAX {
            return Err(CryptoFeederError::SerializationError(SerializationError::SequenceExhausted));
        }
        let mut header = PacketHeader::new();
        header.sequence_number = self.sequence_counter;
        header.exchange_timestamp = now;
        header.local_timestamp = now;
        header.message_type = event.get_message_type();
        header.set_flags_and_count(true, 1);
        let symbol = event.get_symbol();
        header.set_symbol(symbol.as_str());
        header.set_exchange(exchange_display);
        let payload = event.get_payload_bytes();
        let r = PacketBuilder::create_packet_from_flat(&header, &payload);
        self.sequence_counter = self.sequence_counter + 1;
        r
    }

    /// An event datagram under `exchange_display`, stamped with the current time.
    pub fn build_event_packet_with_exchange(&mut self, event: &SystemEvent, exchange_display: &str) -> (r: Result<
        UdpPacket,
        CryptoFeederError,
    >)
        requires
            old(self).wf(),
        ensures
            final(self).wf(),
            counter_room(old(self).next_sequence(), 1) ==> r is Ok && final(self).next_sequence()
                == old(self).next_sequence() + 1 && exists|now: u64|
                packet_is(
                    r->Ok_0,
                    header_of(
                        old(self).next_sequence(),
                        now,
                        now,
                        event_message_type(*event),
                        flags_byte(true, 1),
                        name_of(event_symbol(*event)),
                        name_of(exchange_display@),
                    ) + payload_bytes(*event),
                ),
            !counter_room(old(self).next_sequence(), 1) ==> r == Err::<UdpPacket, _>(
                CryptoFeederError::SerializationError(SerializationError::SequenceExhausted),
            ) && final(self).next_sequence() == old(self).next_sequence(),
    {
        let now = now_nanos();
        self.build_event_packet_at(event, exchange_display, now)
    }

    /// An event datagram under the venue name that the event's id maps to.
    pub fn build_event_packet(&mut self, event: &SystemEvent) -> (r: Result<UdpPacket, CryptoFeederError>)
        requires
            old(self).wf(),
        ensures
            final(self).wf(),
            counter_room(old(self).next_sequence(), 1) ==> r is Ok && exists|now: u64|
                packet_is(
                    r->Ok_0,
                    header_of(
                        old(self).next_sequence(),
                        now,
                        now,
                        event_message_type(*event),
                        flags_byte(true, 1),
                        name_of(event_symbol(*event)),
                        name_of(event_exchange(*event)),
                    ) + payload_bytes(*event),
                ),
            !counter_room(old(self).next_sequence(), 1) ==> r == Err::<UdpPacket, _>(
                CryptoFeederError::SerializationError(SerializationError::SequenceExhausted),
            ) && final(self).next_sequence() == old(self).next_sequence(),
    {
        let exchange = event.get_exchange();
        assert(exchange@ == event_exchange(*event));
        self.build_event_packet_with_exchange(event, exchange.as_str())
    }
}

/// The header symbol of an event.
pub open spec fn event_symbol(e: SystemEvent) -> Seq<char> {
    match e {
        SystemEvent::SubscriptionStatus(s) => lossy_text(until_nul(s.symbol_short@)),
        _ => "SYSTEM"@,
    }
}

/// The venue name of an event, by its venue id.
pub open spec fn event_exchange(e: SystemEvent) -> Seq<char> {
    match e {
        SystemEvent::ConnectionStatus(c) => crate::events::exchange_name_of(c.exchange_id),
        SystemEvent::SubscriptionStatus(s) => crate::events::exchange_name_of(s.exchange_id),
        SystemEvent::ErrorEvent(x) => crate::events::exchange_name_of(x.exchange_id),
        _ => "FEEDER"@,
    }
}


/// The grouping key of a trade: timestamp, symbol and venue.
pub open spec fn trade_group(t: StandardizedTrade) -> (u64, Seq<char>, Seq<char>) {
    (t.timestamp, t.symbol@, t.exchange@)
}

/// The distinct grouping keys of the trades, in order of first appearance.
pub open spec fn group_keys(ts: Seq<StandardizedTrade>) -> Seq<(u64, Seq<char>, Seq<char>)>
    decreases ts.len(),
{
    if ts.len() == 0 {
        Seq::empty()
    } else {
        let g = group_keys(ts.drop_last());
        if g.contains(trade_group(ts.last())) {
            g
        } else {
            g.push(trade_group(ts.last()))
        }
    }
}

/// The trades with grouping key `k`, in arrival order.
pub open spec fn group_members(ts: Seq<StandardizedTrade>, k: (u64, Seq<char>, Seq<char>)) -> Seq<StandardizedTrade>
    decreases ts.len(),
{
    if ts.len() == 0 {
        Seq::empty()
    } else if trade_group(ts.last()) == k {
        group_members(ts.drop_last(), k).push(ts.last())
    } else {
        group_members(ts.drop_last(), k)
    }
}

/// The datagrams that the groups `keys` take, 50 trades per datagram.
pub open spec fn groups_total(ts: Seq<StandardizedTrade>, keys: Seq<(u64, Seq<char>, Seq<char>)>) -> nat
    decreases keys.len(),
{
    if keys.len() == 0 {
        0
    } else {
        groups_total(ts, keys.drop_last()) + chunk_total(
            group_members(ts, keys.last()).len(),
            SINGLE_TRADE_CHUNK_ITEMS as nat,
        )
    }
}

/// `out` holds, group after group, the datagrams of each group of trades: its trades
/// in the stable order, 50 per datagram, under the group's timestamp, symbol and venue.
pub open spec fn groups_out(
    out: Seq<UdpPacket>,
    seq0: u64,
    lts: u64,
    ts: Seq<StandardizedTrade>,
    keys: Seq<(u64, Seq<char>, Seq<char>)>,
) -> bool
    decreases keys.len(),
{
    if keys.len() == 0 {
        out.len() == 0
    } else {
        let pre = groups_total(ts, keys.drop_last());
        let k = keys.last();
        &&& out.len() == pre + chunk_total(group_members(ts, k).len(), SINGLE_TRADE_CHUNK_ITEMS as nat)
        &&& groups_out(out.take(pre as int), seq0, lts, ts, keys.drop_last())
        &&& exists|items: Seq<(i64, i64)>|
            batch_items(group_members(ts, k), items) && emitted(
                out,
                pre as int,
                (seq0 + pre) as u64,
                MESSAGE_TYPE_TRADE_TICK,
                k.0,
                lts,
                name_of(k.1),
                name_of(k.2),
                items,
                SINGLE_TRADE_CHUNK_ITEMS as nat,
            )
    }
}

proof fn lemma_groups_total_prefix(ts: Seq<StandardizedTrade>, keys: Seq<(u64, Seq<char>, Seq<char>)>, g: int)
    requires
        0 <= g <= keys.len(),
    ensures
        groups_total(ts, keys.take(g)) <= groups_total(ts, keys),
    decreases keys.len() - g,
{
    if g < keys.len() {
        lemma_groups_total_prefix(ts, keys, g + 1);
        assert(keys.take(g + 1).drop_last() =~= keys.take(g));
    } else {
        assert(keys.take(g) =~= keys);
    }
}

fn same_group(t: &StandardizedTrade, k: &(u64, String, String)) -> (r: bool)
    ensures
        r == (trade_group(*t) == (k.0, k.1@, k.2@)),
{
    t.timestamp == k.0 && t.symbol == k.1 && t.exchange == k.2
}

fn key_views(keys: Seq<(u64, String, String)>) -> (r: Ghost<Seq<(u64, Seq<char>, Seq<char>)>>)
    ensures
        r@ == keys.map_values(|k: (u64, String, String)| (k.0, k.1@, k.2@)),
{
    Ghost(keys.map_values(|k: (u64, String, String)| (k.0, k.1@, k.2@)))
}

pub open spec fn keys_view(keys: Seq<(u64, String, String)>) -> Seq<(u64, Seq<char>, Seq<char>)> {
    keys.map_values(|k: (u64, String, String)| (k.0, k.1@, k.2@))
}

fn collect_group_keys(trades: &Vec<StandardizedTrade>) -> (r: Vec<(u64, String, String)>)
    ensures
        keys_view(r@) == group_keys(trades@),
{
    let mut keys: Vec<(u64, String, String)> = Vec::new();
    let mut i: usize = 0;
    while i < trades.len()
        invariant
            i <= trades@.len(),
            keys_view(keys@) == group_keys(trades@.take(i as int)),
        decreases trades@.len() - i,
    {
        let ghost ts = trades@.take(i + 1);
        assert(ts.drop_last() =~= trades@.take(i as int));
        let t = &trades[i];
        let mut j: usize = 0;
        while j < keys.len() && !same_group(t, &keys[j])
            invariant
                j <= keys@.len(),
                keys_view(keys@) == group_keys(trades@.take(i as int)),
                forall|m: int| 0 <= m < j ==> keys_view(keys@)[m] != trade_group(*t),
            decreases keys@.len() - j,
        {
            j = j + 1;
        }
        let found = j < keys.len();
        proof {
            if found {
                assert(keys_view(keys@)[j as int] == trade_group(*t));
                assert(group_keys(trades@.take(i as int)).contains(trade_group(trades@[i as int])));
            } else {
                assert(!group_keys(trades@.take(i as int)).contains(trade_group(trades@[i as int])));
            }
        }
        if !found {
            let ghost before = keys@;
            keys.push((t.timestamp, t.symbol.clone(), t.exchange.clone()));
            assert(keys_view(keys@) =~= keys_view(before).push(trade_group(*t)));
        }
        i = i + 1;
    }
    assert(trades@.take(trades@.len() as int) =~= trades@);
    keys
}


/// The wire items of the trades with key `key`, in the stable order.
fn group_items(trades: &Vec<StandardizedTrade>, key: &(u64, String, String)) -> (r: Vec<(i64, i64)>)
    ensures
        batch_items(group_members(trades@, (key.0, key.1@, key.2@)), r@),
        r@.len() == group_members(trades@, (key.0, key.1@, key.2@)).len(),
{
    let ghost k = (key.0, key.1@, key.2@);
    let mut m: Vec<usize> = Vec::new();
    let mut i: usize = 0;
    while i < trades.len()
        invariant
            k == (key.0, key.1@, key.2@),
            i <= trades@.len(),
            m@.len() == group_members(trades@.take(i as int), k).len(),
            forall|j: int| 0 <= j < m@.len() ==> (#[trigger] m@[j]) < trades@.len(),
            forall|j: int|
                0 <= j < m@.len() ==> trades@[#[trigger] m@[j] as int] == group_members(trades@.take(i as int), k)[j],
        decreases trades@.len() - i,
    {
        assert(trades@.take(i + 1).drop_last() =~= trades@.take(i as int));
        assert(trades@.take(i + 1).last() == trades@[i as int]);
        let ghost before = m@;
        if same_group(&trades[i], key) {
            m.push(i);
            proof {
                assert forall|j: int| 0 <= j < m@.len() implies trades@[#[trigger] m@[j] as int] == group_members(trades@.take(i + 1), k)[j] by {
                    if j < before.len() {
                        assert(m@[j] == before[j]);
                    }
                }
            }
        }
        i = i + 1;
    }
    assert(trades@.take(trades@.len() as int) =~= trades@);
    let ghost members = group_members(trades@, k);
    let mut keys: Vec<(bool, i64)> = Vec::new();
    let mut j: usize = 0;
    while j < m.len()
        invariant
            j <= m@.len(),
            m@.len() == members.len(),
            forall|q: int| 0 <= q < m@.len() ==> (#[trigger] m@[q]) < trades@.len(),
            forall|q: int| 0 <= q < m@.len() ==> trades@[#[trigger] m@[q] as int] == members[q],
            keys@ == trade_keys(members).take(j as int),
        decreases m@.len() - j,
    {
        let t = &trades[m[j]];
        keys.push((t.is_buyer_taker, t.price));
        assert(trade_keys(members).take(j + 1) =~= trade_keys(members).take(j as int).push(
            (members[j as int].is_buyer_taker, members[j as int].price),
        ));
        j = j + 1;
    }
    assert(trade_keys(members).take(m@.len() as int) =~= trade_keys(members));
    let order = stable_order(&keys);
    let mut items: Vec<(i64, i64)> = Vec::new();
    let mut q: usize = 0;
    while q < order.len()
        invariant
            stably_ordered(trade_keys(members), order@),
            m@.len() == members.len(),
            forall|x: int| 0 <= x < m@.len() ==> (#[trigger] m@[x]) < trades@.len(),
            forall|x: int| 0 <= x < m@.len() ==> trades@[#[trigger] m@[x] as int] == members[x],
            q <= order@.len(),
            items@ == trade_items(members, order@).take(q as int),
        decreases order@.len() - q,
    {
        let o = order[q];
        let t = &trades[m[o]];
        let qt = crate::protocol::TradeTickItem::new(t.price, t.quantity, t.is_buyer_taker);
        items.push((t.price, qt.quantity_with_flags));
        assert(trade_items(members, order@).take(q + 1) =~= trade_items(members, order@).take(q as int).push(
            trade_items(members, order@)[q as int],
        ));
        q = q + 1;
    }
    assert(trade_items(members, order@).take(order@.len() as int) =~= trade_items(members, order@));
    items
}

impl PacketBuilder {
    /// The datagrams of trades that arrived together: trades are grouped by timestamp,
    /// symbol and venue in order of first appearance; each group's trades go out in
    /// the stable order, 50 per datagram, under the group's timestamp, symbol and venue.
    pub fn build_trade_packets_batch_at(&mut self, trades: &Vec<StandardizedTrade>, local_timestamp: u64) -> (r: Result<
        Vec<UdpPacket>,
        CryptoFeederError,
    >)
        requires
            old(self).wf(),
        ensures
            final(self).wf(),
            counter_room(old(self).next_sequence(), groups_total(trades@, group_keys(trades@))) ==> {
                &&& r is Ok
                &&& final(self).next_sequence() == old(self).next_sequence() + groups_total(trades@, group_keys(trades@))
                &&& groups_out(r->Ok_0@, old(self).next_sequence(), local_timestamp, trades@, group_keys(trades@))
            },
            !counter_room(old(self).next_sequence(), groups_total(trades@, group_keys(trades@))) ==> {
                &&& r == Err::<Vec<UdpPacket>, _>(
                    CryptoFeederError::SerializationError(SerializationError::SequenceExhausted),
                )
                &&& final(self).next_sequence() == old(self).next_sequence()
            },
    {
        let keys = collect_group_keys(trades);
        let ghost kv = keys_view(keys@);
        let ghost ts = trades@;
        let room: u64 = u64::MAX - self.sequence_counter;
        let mut all: Vec<Vec<(i64, i64)>> = Vec::new();
        let mut total: u64 = 0;
        let mut g: usize = 0;
        assert(kv.take(0) =~= Seq::<(u64, Seq<char>, Seq<char>)>::empty());
        while g < keys.len()
            invariant
                kv == keys_view(keys@),
                kv == group_keys(ts),
                ts == trades@,
                room == u64::MAX - self.sequence_counter,
                self.wf(),
                self.next_sequence() == old(self).next_sequence(),
                g <= keys@.len(),
                all@.len() == g,
                total == groups_total(ts, kv.take(g as int)),
                total <= room,
                forall|h: int| 0 <= h < g ==> batch_items(group_members(ts, kv[h]), (#[trigger] all@[h])@),
                forall|h: int| 0 <= h < g ==> (#[trigger] all@[h])@.len() == group_members(ts, kv[h]).len(),
            decreases keys@.len() - g,
        {
            let items = group_items(trades, &keys[g]);
            let cnt = count_chunks(items.len(), SINGLE_TRADE_CHUNK_ITEMS) as u64;
            proof {
                assert(kv.take(g + 1).drop_last() =~= kv.take(g as int));
                assert(kv[g as int] == (keys@[g as int].0, keys@[g as int].1@, keys@[g as int].2@));
            }
            if cnt > room - total {
                proof {
                    lemma_groups_total_prefix(ts, kv, g + 1);
                }
                return Err(CryptoFeederError::SerializationError(SerializationError::SequenceExhausted));
            }
            total = total + cnt;
            let ghost before = all@;
            all.push(items);
            proof {
                assert forall|h: int| 0 <= h < g + 1 implies batch_items(group_members(ts, kv[h]), (#[trigger] all@[h])@) by {
                    if h < g {
                        assert(all@[h] == before[h]);
                    }
                }
                assert forall|h: int| 0 <= h < g + 1 implies (#[trigger] all@[h])@.len() == group_members(ts, kv[h]).len() by {
                    if h < g {
                        assert(all@[h] == before[h]);
                    }
                }
            }
            g = g + 1;
        }
        assert(kv.take(keys@.len() as int) =~= kv);
        let ghost seq0 = self.sequence_counter;
        let mut out: Vec<UdpPacket> = Vec::new();
        let mut h: usize = 0;
        while h < keys.len()
            invariant
                kv == keys_view(keys@),
                kv == group_keys(ts),
                ts == trades@,
                seq0 == old(self).next_sequence(),
                seq0 + groups_total(ts, kv) <= u64::MAX,
                self.wf(),
                h <= keys@.len(),
                all@.len() == keys@.len(),
                self.next_sequence() == seq0 + groups_total(ts, kv.take(h as int)),
                groups_out(out@, seq0, local_timestamp, ts, kv.take(h as int)),
                forall|x: int| 0 <= x < keys@.len() ==> batch_items(group_members(ts, kv[x]), (#[trigger] all@[x])@),
                forall|x: int| 0 <= x < keys@.len() ==> (#[trigger] all@[x])@.len() == group_members(ts, kv[x]).len(),
            decreases keys@.len() - h,
        {
            let key = &keys[h];
            let sym = encode_name_field(key.1.as_str());
            let exch = encode_name_field(key.2.as_str());
            let ghost pre = groups_total(ts, kv.take(h as int));
            let ghost before = out@;
            proof {
                assert(kv.take(h + 1).drop_last() =~= kv.take(h as int));
                assert(kv.take(h + 1).last() == kv[h as int]);
                lemma_groups_total_prefix(ts, kv, h + 1);
                lemma_chunk_total(all@[h as int]@, SINGLE_TRADE_CHUNK_ITEMS as nat);
                assert(kv[h as int] == (key.0, key.1@, key.2@));
            }
            let _ = self.emit(MESSAGE_TYPE_TRADE_TICK, key.0, local_timestamp, sym, exch, &all[h], SINGLE_TRADE_CHUNK_ITEMS, &mut out);
            proof {
                assert(out@.take(pre as int) == before);
                assert(batch_items(group_members(ts, kv[h as int]), all@[h as int]@));
                assert(groups_out(out@, seq0, local_timestamp, ts, kv.take(h + 1)));
            }
            h = h + 1;
        }
        assert(kv.take(keys@.len() as int) =~= kv);
        Ok(out)
    }

    /// Trades that arrived together, stamped with the current time.
    pub fn build_trade_packets_batch(&mut self, trades: &Vec<StandardizedTrade>) -> (r: Result<Vec<UdpPacket>, CryptoFeederError>)
        requires
            old(self).wf(),
        ensures
            final(self).wf(),
            counter_room(old(self).next_sequence(), groups_total(trades@, group_keys(trades@))) ==> r is Ok
                && final(self).next_sequence() == old(self).next_sequence() + groups_total(trades@, group_keys(trades@))
                && exists|t: u64| groups_out(r->Ok_0@, old(self).next_sequence(), t, trades@, group_keys(trades@)),
            !counter_room(old(self).next_sequence(), groups_total(trades@, group_keys(trades@))) ==> r
                == Err::<Vec<UdpPacket>, _>(
                CryptoFeederError::SerializationError(SerializationError::SequenceExhausted),
            ) && final(self).next_sequence() == old(self).next_sequence(),
    {
        let now = now_nanos();
        self.build_trade_packets_batch_at(trades, now)
    }
}

} // verus!
