//! The Common Packet Format: the item-list envelope that wraps every
//! explicit-messaging request and reply.
//!
//! Wire shape, little-endian throughout:
//! a 16-bit item count, then per item a 16-bit type code, a 16-bit payload
//! length, and the payload bytes.  Eager decoding requires the buffer to be
//! consumed exactly; the lazy stream yields one item per pull with the same
//! per-item bounds checks.

use vstd::prelude::*;

use crate::bytes_le::{read_u16_le, u16_bytes, u16_le, write_u16_le};
use crate::error::CipError;
use vstd::slice::{slice_subrange, slice_to_vec};

verus! {

/// Type code of the null address item.
pub const TYPE_NULL_ADDR: u16 = 0x0000;

/// Type code of the connected data item.
pub const TYPE_CONNECTED_DATA: u16 = 0xB1;

/// Type code of the unconnected data item.
pub const TYPE_UNCONNECTED_DATA: u16 = 0xB2;

/// Mathematical model of one packet item.
#[verifier::ext_equal]
pub struct ItemView {
    pub type_code: u16,
    pub data: Seq<u8>,
}

/// An item's payload must fit the 16-bit wire length field.
pub open spec fn item_wf(it: ItemView) -> bool {
    it.data.len() <= 0xFFFF
}

/// Every item of the sequence is well formed.
pub open spec fn items_wf(items: Seq<ItemView>) -> bool {
    forall|i: int| 0 <= i < items.len() ==> item_wf(#[trigger] items[i])
}

/// A packet's item count must fit the 16-bit wire count field, and every
/// item must be well formed.
pub open spec fn packet_wf(items: Seq<ItemView>) -> bool {
    &&& items.len() <= 0xFFFF
    &&& items_wf(items)
}

/// The encoding of one item: type code, payload length, payload.
pub open spec fn spec_encode_item(it: ItemView) -> Seq<u8> {
    u16_bytes(it.type_code) + u16_bytes(it.data.len() as u16) + it.data
}

/// The encoding of a sequence of items, in order.
pub open spec fn spec_encode_items(items: Seq<ItemView>) -> Seq<u8>
    decreases items.len(),
{
    if items.len() == 0 {
        Seq::empty()
    } else {
        spec_encode_item(items[0]) + spec_encode_items(items.skip(1))
    }
}

/// The encoding of a whole packet: item count, then the items.
pub open spec fn spec_encode_packet(items: Seq<ItemView>) -> Seq<u8> {
    u16_bytes(items.len() as u16) + spec_encode_items(items)
}

/// Eager decoding of `count` items from `buf`; the buffer must be consumed
/// exactly.  `None` is a data-format error: a short item header, a declared
/// length exceeding the remaining buffer, or trailing bytes at the end.
pub open spec fn spec_decode_items(buf: Seq<u8>, count: nat) -> Option<Seq<ItemView>>
    decreases count,
{
    if count == 0 {
        if buf.len() == 0 {
            Some(Seq::empty())
        } else {
            None
        }
    } else if buf.len() < 4 {
        None
    } else {
        let type_code = u16_le(buf[0], buf[1]);
        let len = u16_le(buf[2], buf[3]) as int;
        if buf.len() < 4 + len {
            None
        } else {
            match spec_decode_items(buf.skip(4 + len), (count - 1) as nat) {
                Some(rest) => Some(
                    seq![ItemView { type_code, data: buf.subrange(4, 4 + len) }] + rest,
                ),
                None => None,
            }
        }
    }
}

/// Eager decoding of a whole packet: the declared item count, then exactly
/// that many items, with nothing left over.
pub open spec fn spec_decode_packet(buf: Seq<u8>) -> Option<Seq<ItemView>> {
    if buf.len() < 2 {
        None
    } else {
        spec_decode_items(buf.skip(2), u16_le(buf[0], buf[1]) as nat)
    }
}

/// A single typed, length-delimited blob inside a Common Packet.
#[derive(Debug)]
pub struct CommonPacketItem {
    pub type_code: u16,
    pub data: Vec<u8>,
}

impl View for CommonPacketItem {
    type V = ItemView;

    open spec fn view(&self) -> ItemView {
        ItemView { type_code: self.type_code, data: self.data@ }
    }
}

impl CommonPacketItem {
    /// The null address item: type code 0 with an empty payload.
    pub fn with_null_addr() -> (r: Self)
        ensures
            r@ == (ItemView { type_code: TYPE_NULL_ADDR as u16, data: Seq::<u8>::empty() }),
    {
        let r = Self { type_code: TYPE_NULL_ADDR, data: Vec::new() };
        proof {
            assert(r@.data =~= Seq::<u8>::empty());
        }
        r
    }

    /// An unconnected data item carrying `data`.
    pub fn with_unconnected_data(data: Vec<u8>) -> (r: Self)
        ensures
            r@ == (ItemView { type_code: TYPE_UNCONNECTED_DATA as u16, data: data@ }),
    {
        Self { type_code: TYPE_UNCONNECTED_DATA, data }
    }

    /// A connected data item carrying `data`.
    pub fn with_connected_data(data: Vec<u8>) -> (r: Self)
        ensures
            r@ == (ItemView { type_code: TYPE_CONNECTED_DATA as u16, data: data@ }),
    {
        Self { type_code: TYPE_CONNECTED_DATA, data }
    }

    /// True exactly for the null address item: type code 0, empty payload.
    pub fn is_null_addr(&self) -> (r: bool)
        ensures
            r == (self@.type_code == 0 && self@.data.len() == 0),
    {
        if self.type_code != 0 {
            return false;
        }
        self.data.len() == 0
    }

    /// Requires this item to carry the given type code; a mismatch is a
    /// data-format error.
    pub fn ensure_type_code(&self, type_code: u16) -> (r: Result<(), CipError>)
        ensures
            match r {
                Ok(()) => self@.type_code == type_code,
                Err(e) => self@.type_code != type_code && e == CipError::DataFormat,
            },
    {
        if self.type_code != type_code {
            return Err(CipError::DataFormat);
        }
        Ok(())
    }
}

/// An ordered collection of packet items with encode and eager decode.
#[derive(Debug)]
pub struct CommonPacket {
    items: Vec<CommonPacketItem>,
}

impl View for CommonPacket {
    type V = Seq<ItemView>;

    closed spec fn view(&self) -> Seq<ItemView> {
        self.items@.map_values(|it: CommonPacketItem| it@)
    }
}

impl CommonPacket {
    /// An empty packet.
    pub fn new() -> (r: Self)
        ensures
            r@ == Seq::<ItemView>::empty(),
    {
        let r = Self { items: Vec::new() };
        proof {
            assert(r@ =~= Seq::<ItemView>::empty());
        }
        r
    }

    /// A packet over the given items, in order.
    pub fn from_items(items: Vec<CommonPacketItem>) -> (r: Self)
        ensures
            r@ == items@.map_values(|it: CommonPacketItem| it@),
    {
        Self { items }
    }

    /// The items, in order, giving up the packet.
    pub fn into_items(self) -> (r: Vec<CommonPacketItem>)
        ensures
            r@.map_values(|it: CommonPacketItem| it@) == self@,
    {
        self.items
    }

    /// The number of items.
    pub fn len(&self) -> (r: usize)
        ensures
            r == self@.len(),
    {
        self.items.len()
    }

    /// The item at `idx`.
    pub fn get(&self, idx: usize) -> (r: &CommonPacketItem)
        requires
            idx < self@.len(),
        ensures
            r@ == self@[idx as int],
    {
        &self.items[idx]
    }

    /// Appends an item.
    pub fn push(&mut self, item: CommonPacketItem)
        ensures
            final(self)@ == old(self)@.push(item@),
    {
        self.items.push(item);
        proof {
            assert(self@ =~= old(self)@.push(item@));
        }
    }

    /// Removes and returns the item at `idx`; callers only remove items
    /// whose presence they have already confirmed.
    pub fn remove(&mut self, idx: usize) -> (r: CommonPacketItem)
        requires
            idx < old(self)@.len(),
        ensures
            r@ == old(self)@[idx as int],
            final(self)@ == old(self)@.remove(idx as int),
    {
        let r = self.items.remove(idx);
        proof {
            assert(self@ =~= old(self)@.remove(idx as int));
        }
        r
    }

    /// Encodes the packet into its wire form.
    pub fn encode(&self) -> (r: Vec<u8>)
        requires
            packet_wf(self@),
        ensures
            r@ == spec_encode_packet(self@),
    {
        let n = self.items.len();
        let mut out: Vec<u8> = Vec::new();
        write_u16_le(&mut out, n as u16);
        proof {
            assert(self@.take(0) =~= Seq::<ItemView>::empty());
            assert(out@ =~= u16_bytes(n as u16) + spec_encode_items(self@.take(0)));
        }
        for i in 0..n
            invariant
                n == self@.len(),
                packet_wf(self@),
                out@ == u16_bytes(n as u16) + spec_encode_items(self@.take(i as int)),
        {
            let item = &self.items[i];
            write_u16_le(&mut out, item.type_code);
            write_u16_le(&mut out, item.data.len() as u16);
            let mut tail = slice_to_vec(item.data.as_slice());
            out.append(&mut tail);
            proof {
                let taken = self@.take(i + 1);
                assert(taken.drop_last() =~= self@.take(i as int));
                assert(taken.last() == self@[i as int]);
                lemma_encode_items_snoc(taken);
                assert(out@ =~= u16_bytes(n as u16) + spec_encode_items(taken));
            }
        }
        proof {
            assert(self@.take(n as int) =~= self@);
        }
        out
    }

    /// Eagerly decodes a buffer: the declared count of items must be
    /// present, and the buffer must be consumed exactly.  Any violation is
    /// a data-format error and no partial packet is returned.
    pub fn decode(buf: &[u8]) -> (r: Result<CommonPacket, CipError>)
        ensures
            match r {
                Ok(p) => spec_decode_packet(buf@) == Some(p@),
                Err(e) => spec_decode_packet(buf@) is None && e == CipError::DataFormat,
            },
    {
        if buf.len() < 2 {
            return Err(CipError::DataFormat);
        }
        let count = read_u16_le(buf, 0);
        proof {
            assert(buf@.subrange(2, buf@.len() as int) =~= buf@.skip(2));
        }
        let mut pos: usize = 2;
        let mut packet = CommonPacket::new();
        let mut i: u16 = 0;
        while i < count
            invariant
                2 <= pos <= buf@.len(),
                i <= count,
                count == u16_le(buf@[0], buf@[1]),
                packet@.len() == i,
                spec_decode_items(buf@.skip(2), count as nat) == match spec_decode_items(
                    buf@.subrange(pos as int, buf@.len() as int),
                    (count - i) as nat,
                ) {
                    Some(rest) => Some(packet@ + rest),
                    None => None::<Seq<ItemView>>,
                },
            decreases count - i,
        {
            let ghost sub = buf@.subrange(pos as int, buf@.len() as int);
            let remaining = buf.len() - pos;
            if remaining < 4 {
                return Err(CipError::DataFormat);
            }
            let type_code = read_u16_le(buf, pos);
            let item_length = read_u16_le(buf, pos + 2) as usize;
            proof {
                assert(sub[0] == buf@[pos as int]);
                assert(sub[1] == buf@[pos + 1]);
                assert(sub[2] == buf@[pos + 2]);
                assert(sub[3] == buf@[pos + 3]);
            }
            if remaining - 4 < item_length {
                return Err(CipError::DataFormat);
            }
            let data = slice_to_vec(slice_subrange(buf, pos + 4, pos + 4 + item_length));
            proof {
                assert(data@ =~= sub.subrange(4, 4 + item_length as int));
                assert(sub.skip(4 + item_length as int) =~= buf@.subrange(
                    pos + 4 + item_length,
                    buf@.len() as int,
                ));
            }
            let ghost packet_before = packet@;
            packet.push(CommonPacketItem { type_code, data });
            proof {
                let it = ItemView { type_code, data: sub.subrange(4, 4 + item_length as int) };
                match spec_decode_items(
                    buf@.subrange(pos + 4 + item_length, buf@.len() as int),
                    (count - i - 1) as nat,
                ) {
                    Some(rest) => {
                        assert(packet_before + (seq![it] + rest) =~= packet@ + rest);
                    },
                    None => {},
                }
            }
            pos = pos + 4 + item_length;
            i = i + 1;
        }
        if pos != buf.len() {
            return Err(CipError::DataFormat);
        }
        proof {
            assert(buf@.subrange(pos as int, buf@.len() as int) =~= Seq::<u8>::empty());
            assert(packet@ + Seq::<ItemView>::empty() =~= packet@);
        }
        Ok(packet)
    }
}

/// One step of lazy decoding: the item at the head of `rem` and the bytes
/// after it, or `None` when the item's header or payload is cut short.
pub open spec fn stream_step(rem: Seq<u8>) -> Option<(ItemView, Seq<u8>)> {
    if rem.len() < 4 {
        None
    } else {
        let len = u16_le(rem[2], rem[3]) as int;
        if rem.len() < 4 + len {
            None
        } else {
            Some(
                (
                    ItemView { type_code: u16_le(rem[0], rem[1]), data: rem.subrange(4, 4 + len) },
                    rem.skip(4 + len),
                ),
            )
        }
    }
}

/// A lazy decoder that yields items one at a time from a buffer, with the
/// same per-item bounds checks as eager decoding; it never decodes beyond
/// the declared count and may leave trailing bytes unread.
#[derive(Debug)]
pub struct CommonPacketIter {
    buf: Vec<u8>,
    pos: usize,
    consumed: u16,
    total: u16,
}

impl CommonPacketIter {
    /// The cursor never leaves the buffer.
    pub closed spec fn wf(&self) -> bool {
        2 <= self.pos <= self.buf@.len()
    }

    /// The item count declared by the envelope header.
    pub closed spec fn spec_total(&self) -> u16 {
        self.total
    }

    /// How many items have been yielded so far.
    pub closed spec fn spec_consumed(&self) -> u16 {
        self.consumed
    }

    /// The bytes not yet consumed.
    pub closed spec fn spec_remaining(&self) -> Seq<u8> {
        self.buf@.skip(self.pos as int)
    }

    /// Builds a stream over `buf`, reading the declared item count; a
    /// buffer too short for the count field is a data-format error.
    pub fn new(buf: Vec<u8>) -> (r: Result<Self, CipError>)
        ensures
            match r {
                Ok(s) => {
                    &&& buf@.len() >= 2
                    &&& s.wf()
                    &&& s.spec_total() == u16_le(buf@[0], buf@[1])
                    &&& s.spec_consumed() == 0
                    &&& s.spec_remaining() == buf@.skip(2)
                },
                Err(e) => buf@.len() < 2 && e == CipError::DataFormat,
            },
    {
        if buf.len() < 2 {
            return Err(CipError::DataFormat);
        }
        let total = read_u16_le(buf.as_slice(), 0);
        Ok(Self { buf, pos: 2, consumed: 0, total })
    }

    /// The declared total item count.
    pub fn len(&self) -> (r: usize)
        ensures
            r == self.spec_total(),
    {
        self.total as usize
    }

    /// True when the envelope declares no items at all.
    pub fn is_empty(&self) -> (r: bool)
        ensures
            r == (self.spec_total() == 0),
    {
        self.total == 0
    }

    /// Decodes the next item.  `None` once the declared count is exhausted;
    /// a short item header or payload is a data-format error and leaves the
    /// stream unchanged.
    pub fn next(&mut self) -> (r: Option<Result<CommonPacketItem, CipError>>)
        requires
            old(self).wf(),
        ensures
            final(self).wf(),
            final(self).spec_total() == old(self).spec_total(),
            match r {
                None => {
                    &&& old(self).spec_consumed() >= old(self).spec_total()
                    &&& *final(self) == *old(self)
                },
                Some(Ok(item)) => {
                    &&& old(self).spec_consumed() < old(self).spec_total()
                    &&& stream_step(old(self).spec_remaining()) == Some(
                        (item@, final(self).spec_remaining()),
                    )
                    &&& final(self).spec_consumed() == old(self).spec_consumed() + 1
                },
                Some(Err(e)) => {
                    &&& old(self).spec_consumed() < old(self).spec_total()
                    &&& stream_step(old(self).spec_remaining()) is None
                    &&& e == CipError::DataFormat
                    &&& *final(self) == *old(self)
                },
            },
    {
        if self.consumed >= self.total {
            return None;
        }
        let ghost rem = self.buf@.skip(self.pos as int);
        let remaining = self.buf.len() - self.pos;
        if remaining < 4 {
            return Some(Err(CipError::DataFormat));
        }
        let type_code = read_u16_le(self.buf.as_slice(), self.pos);
        let item_length = read_u16_le(self.buf.as_slice(), self.pos + 2) as usize;
        proof {
            assert(rem[0] == self.buf@[self.pos as int]);
            assert(rem[1] == self.buf@[self.pos + 1]);
            assert(rem[2] == self.buf@[self.pos + 2]);
            assert(rem[3] == self.buf@[self.pos + 3]);
        }
        if remaining - 4 < item_length {
            return Some(Err(CipError::DataFormat));
        }
        let data = slice_to_vec(
            slice_subrange(self.buf.as_slice(), self.pos + 4, self.pos + 4 + item_length),
        );
        proof {
            assert(data@ =~= rem.subrange(4, 4 + item_length as int));
            assert(rem.skip(4 + item_length as int) =~= self.buf@.skip(
                self.pos + 4 + item_length,
            ));
        }
        self.pos = self.pos + 4 + item_length;
        self.consumed = self.consumed + 1;
        Some(Ok(CommonPacketItem { type_code, data }))
    }
}

/// The two decode modes enforce identical per-item bounds rules: where
/// items remain to be decoded, one lazy step succeeds exactly where eager
/// decoding does not fail on the first item, yields the same item, and
/// leaves exactly the items after it to decode from the remaining bytes.
pub proof fn lemma_stream_step_agrees_with_eager(buf: Seq<u8>, count: nat)
    requires
        count > 0,
    ensures
        match stream_step(buf) {
            Some((it, rest)) => spec_decode_items(buf, count) == match spec_decode_items(
                rest,
                (count - 1) as nat,
            ) {
                Some(rest_items) => Some(seq![it] + rest_items),
                None => None::<Seq<ItemView>>,
            },
            None => spec_decode_items(buf, count) is None,
        },
{
}

/// Extending an item sequence on the right appends that item's encoding.
pub proof fn lemma_encode_items_snoc(items: Seq<ItemView>)
    requires
        items.len() > 0,
    ensures
        spec_encode_items(items) == spec_encode_items(items.drop_last()) + spec_encode_item(
            items.last(),
        ),
    decreases items.len(),
{
    if items.len() == 1 {
        assert(items.skip(1) =~= Seq::<ItemView>::empty());
        assert(items.drop_last() =~= Seq::<ItemView>::empty());
        assert(spec_encode_items(items) =~= spec_encode_items(items.drop_last())
            + spec_encode_item(items.last()));
    } else {
        lemma_encode_items_snoc(items.skip(1));
        assert(items.skip(1).drop_last() =~= items.drop_last().skip(1));
        assert(items.skip(1).last() == items.last());
        assert(items.drop_last()[0] == items[0]);
        assert(spec_encode_items(items) =~= spec_encode_items(items.drop_last())
            + spec_encode_item(items.last()));
    }
}

/// Decoding an encoded item sequence followed by `tail` succeeds exactly
/// when `tail` is empty, and then yields the original items.
pub proof fn lemma_decode_items_of_encode(items: Seq<ItemView>, tail: Seq<u8>)
    requires
        items_wf(items),
    ensures
        spec_decode_items(spec_encode_items(items) + tail, items.len()) == if tail.len() == 0 {
            Some(items)
        } else {
            None::<Seq<ItemView>>
        },
    decreases items.len(),
{
    let buf = spec_encode_items(items) + tail;
    if items.len() == 0 {
        assert(buf =~= tail);
    } else {
        let it = items[0];
        let l = it.data.len() as int;
        crate::bytes_le::lemma_u16_round_trip(it.type_code);
        crate::bytes_le::lemma_u16_round_trip(it.data.len() as u16);
        assert(buf.len() >= 4 + l);
        assert(u16_le(buf[0], buf[1]) == it.type_code);
        assert(u16_le(buf[2], buf[3]) as int == l);
        assert(buf.subrange(4, 4 + l) =~= it.data);
        assert(buf.skip(4 + l) =~= spec_encode_items(items.skip(1)) + tail);
        lemma_decode_items_of_encode(items.skip(1), tail);
        if tail.len() == 0 {
            assert(seq![ItemView { type_code: it.type_code, data: buf.subrange(4, 4 + l) }]
                + items.skip(1) =~= items);
        }
    }
}

/// Round trip: decoding the encoding of any well-formed packet yields the
/// packet's items, in order, unchanged.
pub proof fn lemma_round_trip(items: Seq<ItemView>)
    requires
        packet_wf(items),
    ensures
        spec_decode_packet(spec_encode_packet(items)) == Some(items),
{
    let buf = spec_encode_packet(items);
    crate::bytes_le::lemma_u16_round_trip(items.len() as u16);
    assert(u16_le(buf[0], buf[1]) as nat == items.len());
    assert(buf.skip(2) =~= spec_encode_items(items) + Seq::<u8>::empty());
    lemma_decode_items_of_encode(items, Seq::empty());
}

/// Extra trailing bytes after a well-formed encoding make eager decoding
/// fail: the buffer must be consumed exactly.
pub proof fn lemma_trailing_bytes_rejected(items: Seq<ItemView>, extra: Seq<u8>)
    requires
        packet_wf(items),
        extra.len() > 0,
    ensures
        spec_decode_packet(spec_encode_packet(items) + extra) is None,
{
    let buf = spec_encode_packet(items) + extra;
    crate::bytes_le::lemma_u16_round_trip(items.len() as u16);
    assert(u16_le(buf[0], buf[1]) as nat == items.len());
    assert(buf.skip(2) =~= spec_encode_items(items) + extra);
    lemma_decode_items_of_encode(items, extra);
}

/// Truncating an encoded item sequence anywhere before its end makes
/// decoding of the declared count fail.
pub proof fn lemma_decode_items_truncated(items: Seq<ItemView>, n: int)
    requires
        items_wf(items),
        0 <= n < spec_encode_items(items).len(),
    ensures
        spec_decode_items(spec_encode_items(items).take(n), items.len()) is None,
    decreases items.len(),
{
    let enc = spec_encode_items(items);
    let buf = enc.take(n);
    let it = items[0];
    let l = it.data.len() as int;
    crate::bytes_le::lemma_u16_round_trip(it.type_code);
    crate::bytes_le::lemma_u16_round_trip(it.data.len() as u16);
    if n < 4 {
        assert(buf.len() < 4);
    } else {
        assert(u16_le(buf[2], buf[3]) as int == l);
        if n < 4 + l {
            assert(buf.len() < 4 + l);
        } else {
            let rest_enc = spec_encode_items(items.skip(1));
            assert(enc.len() == 4 + l + rest_enc.len());
            assert(buf.skip(4 + l) =~= rest_enc.take(n - 4 - l));
            lemma_decode_items_truncated(items.skip(1), n - 4 - l);
        }
    }
}

/// Truncation rejection: cutting a valid encoded packet at any byte offset
/// before its declared end makes eager decoding fail.
pub proof fn lemma_truncation_rejected(items: Seq<ItemView>, n: int)
    requires
        packet_wf(items),
        0 <= n < spec_encode_packet(items).len(),
    ensures
        spec_decode_packet(spec_encode_packet(items).take(n)) is None,
{
    let enc = spec_encode_packet(items);
    let buf = enc.take(n);
    if n < 2 {
        assert(buf.len() < 2);
    } else {
        crate::bytes_le::lemma_u16_round_trip(items.len() as u16);
        assert(u16_le(buf[0], buf[1]) as nat == items.len());
        assert(buf.skip(2) =~= spec_encode_items(items).take(n - 2));
        lemma_decode_items_truncated(items, n - 2);
    }
}

} // verus!
