//! The fragmentation coordinator: multi-round transfer of values too large
//! for one message, driven by the "more data pending" status and an
//! explicit byte-offset cursor.
//!
//! Rounds are strictly sequential: the caller issues round n+1 only after
//! round n's reply, because offset correctness depends on it.  The caller
//! performs the exchanges; these state machines fix what each round's
//! offset is and what the rounds amount to.

use vstd::prelude::*;

use crate::error::CipError;
use crate::status::{Status, STATUS_HAS_MORE};
use vstd::slice::{slice_subrange, slice_to_vec};

verus! {

/// Model of a fragmented read in progress.
#[verifier::ext_equal]
pub struct ReadView {
    pub offset: int,
    pub accumulated: Seq<u8>,
    pub complete: bool,
}

/// The state a fragmented read starts from.
pub open spec fn read_init() -> ReadView {
    ReadView { offset: 0, accumulated: Seq::empty(), complete: false }
}

/// The state after absorbing one round's reply: the payload is appended in
/// order, the offset advances by its length, and the operation completes
/// when the device signals no more data.
pub open spec fn read_step(s: ReadView, payload: Seq<u8>, has_more: bool) -> ReadView {
    ReadView {
        offset: s.offset + payload.len(),
        accumulated: s.accumulated + payload,
        complete: !has_more,
    }
}

/// The offset cursor always equals the number of bytes accumulated, and
/// both fit the 32-bit wire offset.
pub open spec fn read_wf(s: ReadView) -> bool {
    &&& s.offset == s.accumulated.len()
    &&& s.accumulated.len() <= u32::MAX
}

/// A fragmented read: issues the fragmented service with the current
/// offset each round and accumulates the returned payloads in order.
#[derive(Debug)]
pub struct FragmentRead {
    offset: u32,
    accumulated: Vec<u8>,
    complete: bool,
}

impl View for FragmentRead {
    type V = ReadView;

    closed spec fn view(&self) -> ReadView {
        ReadView {
            offset: self.offset as int,
            accumulated: self.accumulated@,
            complete: self.complete,
        }
    }
}

impl FragmentRead {
    /// Starts a read at offset 0 with nothing accumulated.
    pub fn new() -> (r: Self)
        ensures
            r@ == read_init(),
            read_wf(r@),
    {
        let r = FragmentRead { offset: 0, accumulated: Vec::new(), complete: false };
        proof {
            assert(r@ =~= read_init());
        }
        r
    }

    /// The byte offset to request in the next round.
    pub fn offset(&self) -> (r: u32)
        ensures
            r == self@.offset,
    {
        self.offset
    }

    /// True once the device reported no more data; an empty accumulation
    /// completed on the first round is a valid zero-length result.
    pub fn is_complete(&self) -> (r: bool)
        ensures
            r == self@.complete,
    {
        self.complete
    }

    /// Absorbs one round's reply.  A round that signals more data yet
    /// carries no payload makes no progress and is rejected as a protocol
    /// error, leaving the state unchanged.
    pub fn on_reply(&mut self, payload: &[u8], has_more: bool) -> (r: Result<(), CipError>)
        requires
            read_wf(old(self)@),
            !old(self)@.complete,
            old(self)@.accumulated.len() + payload@.len() <= u32::MAX,
        ensures
            read_wf(final(self)@),
            match r {
                Ok(()) => {
                    &&& !(has_more && payload@.len() == 0)
                    &&& final(self)@ == read_step(old(self)@, payload@, has_more)
                },
                Err(e) => {
                    &&& has_more && payload@.len() == 0
                    &&& e == CipError::Protocol
                    &&& *final(self) == *old(self)
                },
            },
    {
        if has_more && payload.len() == 0 {
            return Err(CipError::Protocol);
        }
        let mut p = slice_to_vec(payload);
        self.accumulated.append(&mut p);
        self.offset = self.accumulated.len() as u32;
        self.complete = !has_more;
        proof {
            assert(self@ =~= read_step(old(self)@, payload@, has_more));
        }
        Ok(())
    }

    /// The accumulated value of a completed read.
    pub fn into_value(self) -> (r: Vec<u8>)
        requires
            self@.complete,
        ensures
            r@ == self@.accumulated,
    {
        self.accumulated
    }
}

/// The chunk a device serves at offset `off` when it splits `data` into
/// chunks of `chunk` bytes.
pub open spec fn chunk_at(data: Seq<u8>, chunk: nat, off: nat) -> Seq<u8> {
    if off + chunk <= data.len() {
        data.subrange(off as int, (off + chunk) as int)
    } else if off <= data.len() {
        data.subrange(off as int, data.len() as int)
    } else {
        Seq::empty()
    }
}

/// The read coordinator's state after `k` rounds against a device that
/// serves `data` in chunks of `chunk` bytes and signals "more" exactly
/// while bytes remain beyond the round's payload.
pub open spec fn run_read(data: Seq<u8>, chunk: nat, k: nat) -> ReadView
    decreases k,
{
    if k == 0 {
        read_init()
    } else {
        let prev = run_read(data, chunk, (k - 1) as nat);
        let payload = chunk_at(data, chunk, prev.offset as nat);
        read_step(prev, payload, prev.offset + payload.len() < data.len())
    }
}

/// How many rounds the device needs for `n` bytes in chunks of `chunk`:
/// the rounded-up quotient, and a single round for a zero-length value.
pub open spec fn rounds_needed(n: nat, chunk: nat) -> nat {
    if n == 0 {
        1
    } else {
        ((n + chunk - 1) as int / chunk as int) as nat
    }
}

/// After `k` rounds the coordinator has accumulated exactly the first
/// `k * chunk` bytes (capped at the value's length), its offset equals
/// that count, and it is complete exactly at the final round.
pub proof fn lemma_read_progress(data: Seq<u8>, chunk: nat, k: nat)
    requires
        chunk > 0,
        k <= rounds_needed(data.len(), chunk),
    ensures
        ({
            let s = run_read(data, chunk, k);
            &&& s.offset == if k * chunk <= data.len() {
                (k * chunk) as int
            } else {
                data.len() as int
            }
            &&& s.accumulated == data.take(s.offset)
            &&& (s.complete <==> k == rounds_needed(data.len(), chunk))
        }),
    decreases k,
{
    let n = data.len() as int;
    let c = chunk as int;
    let rounds = rounds_needed(data.len(), chunk) as int;
    if n > 0 {
        vstd::arithmetic::div_mod::lemma_fundamental_div_mod(n + c - 1, c);
        assert(rounds * c >= n);
        assert((rounds - 1) * c == rounds * c - c) by (nonlinear_arith);
        assert((rounds - 1) * c <= n - 1);
    }
    if k == 0 {
        assert(run_read(data, chunk, 0).accumulated =~= data.take(0));
    } else {
        lemma_read_progress(data, chunk, (k - 1) as nat);
        let prev = run_read(data, chunk, (k - 1) as nat);
        let ki = k as int;
        assert((ki - 1) * c == ki * c - c) by (nonlinear_arith);
        if n > 0 && ki - 1 < rounds {
            assert((ki - 1) * c <= (rounds - 1) * c) by (nonlinear_arith)
                requires
                    ki - 1 <= rounds - 1,
                    c > 0,
            ;
        }
        assert(prev.offset == (ki - 1) * c || (n == 0 && prev.offset == 0));
        let payload = chunk_at(data, chunk, prev.offset as nat);
        let s = read_step(prev, payload, prev.offset + payload.len() < n);
        assert(s.offset == if ki * c <= n {
            ki * c
        } else {
            n
        });
        assert(prev.accumulated + payload =~= data.take(s.offset));
        if s.complete {
            assert(ki * c >= n);
            if n > 0 {
                assert(ki >= rounds) by (nonlinear_arith)
                    requires
                        ki * c >= n,
                        (rounds - 1) * c <= n - 1,
                        c > 0,
                        ki >= 1,
                ;
            }
        } else {
            assert(ki * c < n);
            if n > 0 {
                assert(ki < rounds) by (nonlinear_arith)
                    requires
                        ki * c < n,
                        rounds * c >= n,
                        c > 0,
                ;
            }
        }
    }
}

/// Fragmentation reconstruction: against a device that splits an N-byte
/// value into chunks of size C and signals "more" on all but the last
/// round, the coordinator runs exactly the needed number of rounds — the
/// rounded-up quotient N/C, or one round for an empty value — with
/// strictly increasing offsets 0, C, 2C, ..., and its final accumulation
/// is the original value, byte for byte.
pub proof fn lemma_fragmented_read(data: Seq<u8>, chunk: nat)
    requires
        chunk > 0,
    ensures
        ({
            let rounds = rounds_needed(data.len(), chunk);
            &&& run_read(data, chunk, rounds).complete
            &&& run_read(data, chunk, rounds).accumulated == data
            &&& forall|i: nat|
                i < rounds ==> #[trigger] run_read(data, chunk, i).offset == i * chunk
            &&& forall|i: nat| i < rounds ==> !run_read(data, chunk, i).complete
        }),
{
    let n = data.len() as int;
    let c = chunk as int;
    let rounds = rounds_needed(data.len(), chunk);
    lemma_read_progress(data, chunk, rounds);
    if n > 0 {
        vstd::arithmetic::div_mod::lemma_fundamental_div_mod(n + c - 1, c);
        assert(rounds as int * c >= n);
    }
    assert(run_read(data, chunk, rounds).accumulated =~= data);
    assert forall|i: nat| i < rounds implies #[trigger] run_read(data, chunk, i).offset == i
        * chunk by {
        lemma_read_progress(data, chunk, i);
        if n > 0 {
            vstd::arithmetic::div_mod::lemma_fundamental_div_mod(n + c - 1, c);
            assert(i as int * c <= (rounds - 1) as int * c) by (nonlinear_arith)
                requires
                    i < rounds,
                    c > 0,
            ;
            assert((rounds - 1) as int * c == rounds as int * c - c) by (nonlinear_arith);
        }
    }
    assert forall|i: nat| i < rounds implies !run_read(data, chunk, i).complete by {
        lemma_read_progress(data, chunk, i);
    }
}

/// Offset and bytes sent after some acknowledged rounds of a fragmented
/// write.
#[verifier::ext_equal]
pub struct WriteRun {
    pub offset: int,
    pub sent: Seq<u8>,
}

/// The write coordinator's progress after `k` acknowledged rounds of
/// writing `data` in chunks of at most `chunk` bytes: each round sends the
/// chunk at the current offset and the acknowledgement advances the offset
/// by its length.
pub open spec fn run_write(data: Seq<u8>, chunk: nat, k: nat) -> WriteRun
    decreases k,
{
    if k == 0 {
        WriteRun { offset: 0, sent: Seq::empty() }
    } else {
        let prev = run_write(data, chunk, (k - 1) as nat);
        let payload = chunk_at(data, chunk, prev.offset as nat);
        WriteRun { offset: prev.offset + payload.len(), sent: prev.sent + payload }
    }
}

/// How many rounds a write of `n` bytes needs in chunks of `chunk`: the
/// rounded-up quotient; a zero-length value needs no round at all.
pub open spec fn write_rounds_needed(n: nat, chunk: nat) -> nat {
    ((n + chunk - 1) as int / chunk as int) as nat
}

/// Bounds of the rounded-up quotient `(n + c - 1) / c`.
proof fn lemma_ceil_div(n: int, c: int)
    requires
        c > 0,
        n >= 0,
    ensures
        (n + c - 1) / c >= 0,
        ((n + c - 1) / c) * c >= n,
        (((n + c - 1) / c) - 1) * c <= n - 1,
        n == 0 ==> (n + c - 1) / c == 0,
{
    vstd::arithmetic::div_mod::lemma_fundamental_div_mod(n + c - 1, c);
    vstd::arithmetic::div_mod::lemma_div_pos_is_pos(n + c - 1, c);
    let q = (n + c - 1) / c;
    assert(c * q + (n + c - 1) % c == n + c - 1);
    assert(q * c == c * q) by (nonlinear_arith);
    assert((q - 1) * c == q * c - c) by (nonlinear_arith);
    if n == 0 {
        vstd::arithmetic::div_mod::lemma_basic_div(n + c - 1, c);
    }
}

/// After `k` acknowledged rounds the coordinator has sent exactly the
/// first `k * chunk` bytes (capped at the value's length), in order, and
/// its offset equals that count.
#[verifier::spinoff_prover]
pub proof fn lemma_write_progress(data: Seq<u8>, chunk: nat, k: nat)
    requires
        chunk > 0,
        k <= write_rounds_needed(data.len(), chunk),
    ensures
        ({
            let s = run_write(data, chunk, k);
            &&& s.offset == if k * chunk <= data.len() {
                (k * chunk) as int
            } else {
                data.len() as int
            }
            &&& s.sent == data.take(s.offset)
        }),
    decreases k,
{
    let n = data.len() as int;
    let c = chunk as int;
    let rounds = write_rounds_needed(data.len(), chunk) as int;
    lemma_ceil_div(n, c);
    assert(rounds == (n + c - 1) / c);
    if k == 0 {
        assert(run_write(data, chunk, 0).sent =~= data.take(0));
    } else {
        lemma_write_progress(data, chunk, (k - 1) as nat);
        let prev = run_write(data, chunk, (k - 1) as nat);
        let ki = k as int;
        assert((ki - 1) * c == ki * c - c) by (nonlinear_arith);
        assert((ki - 1) * c <= (rounds - 1) * c) by (nonlinear_arith)
            requires
                ki - 1 <= rounds - 1,
                c > 0,
        ;
        assert(prev.offset == (ki - 1) * c);
        let payload = chunk_at(data, chunk, prev.offset as nat);
        let s = WriteRun { offset: prev.offset + payload.len(), sent: prev.sent + payload };
        assert(run_write(data, chunk, k) =~= s);
        assert(s.offset == if ki * c <= n {
            ki * c
        } else {
            n
        });
        assert(prev.sent + payload =~= data.take(s.offset));
    }
}

/// On success a fragmented write transfers byte ranges in strictly
/// increasing offset order with no gaps and no overlaps: after the needed
/// number of rounds the offsets visited were exactly 0, C, 2C, ..., and
/// the chunks sent concatenate to the original value, byte for byte.
#[verifier::spinoff_prover]
pub proof fn lemma_fragmented_write(data: Seq<u8>, chunk: nat)
    requires
        chunk > 0,
    ensures
        ({
            let rounds = write_rounds_needed(data.len(), chunk);
            &&& run_write(data, chunk, rounds).offset == data.len()
            &&& run_write(data, chunk, rounds).sent == data
            &&& forall|i: nat|
                i < rounds ==> #[trigger] run_write(data, chunk, i).offset == i * chunk
        }),
{
    let n = data.len() as int;
    let c = chunk as int;
    let rounds = write_rounds_needed(data.len(), chunk);
    lemma_ceil_div(n, c);
    lemma_write_progress(data, chunk, rounds);
    assert(run_write(data, chunk, rounds).sent =~= data);
    assert forall|i: nat| i < rounds implies #[trigger] run_write(data, chunk, i).offset == i
        * chunk by {
        lemma_write_progress(data, chunk, i);
        lemma_ceil_div(n, c);
        assert(i as int * c <= (rounds - 1) as int * c) by (nonlinear_arith)
            requires
                i < rounds,
                c > 0,
        ;
    }
}

/// Model of a fragmented write in progress.
#[verifier::ext_equal]
pub struct WriteView {
    pub data: Seq<u8>,
    pub offset: int,
    pub chunk_size: int,
}

/// The offset never runs past the value, the value fits the 32-bit wire
/// offset, and chunks are nonempty.
pub open spec fn write_wf(s: WriteView) -> bool {
    &&& 0 <= s.offset <= s.data.len()
    &&& s.data.len() <= u32::MAX
    &&& s.chunk_size > 0
}

/// A fragmented write: slices the full value into ordered chunks of at
/// most the given size — the underlying transport's message-size limit —
/// and advances the offset once the device acknowledges a round.
#[derive(Debug)]
pub struct FragmentWrite {
    data: Vec<u8>,
    offset: u32,
    chunk_size: usize,
}

impl View for FragmentWrite {
    type V = WriteView;

    closed spec fn view(&self) -> WriteView {
        WriteView {
            data: self.data@,
            offset: self.offset as int,
            chunk_size: self.chunk_size as int,
        }
    }
}

impl FragmentWrite {
    /// Starts a write of `data` in chunks of at most `chunk_size` bytes.
    pub fn new(data: Vec<u8>, chunk_size: usize) -> (r: Self)
        requires
            chunk_size > 0,
            data@.len() <= u32::MAX,
        ensures
            r@ == (WriteView { data: data@, offset: 0, chunk_size: chunk_size as int }),
            write_wf(r@),
    {
        FragmentWrite { data, offset: 0, chunk_size }
    }

    /// The byte offset to send in the next round.
    pub fn offset(&self) -> (r: u32)
        ensures
            r == self@.offset,
    {
        self.offset
    }

    /// True once every byte has been sent and acknowledged; a zero-length
    /// value needs no round at all.
    pub fn is_complete(&self) -> (r: bool)
        requires
            write_wf(self@),
        ensures
            r == (self@.offset == self@.data.len()),
    {
        self.offset as usize >= self.data.len()
    }

    /// The chunk to send at the current offset: the next `chunk_size`
    /// bytes, or whatever remains.
    pub fn next_chunk(&self) -> (r: Vec<u8>)
        requires
            write_wf(self@),
            self@.offset < self@.data.len(),
        ensures
            r@ == chunk_at(self@.data, self@.chunk_size as nat, self@.offset as nat),
            r@.len() > 0,
    {
        let off = self.offset as usize;
        let end = if self.data.len() - off < self.chunk_size {
            self.data.len()
        } else {
            off + self.chunk_size
        };
        let r = slice_to_vec(slice_subrange(self.data.as_slice(), off, end));
        proof {
            assert(r@ =~= chunk_at(self@.data, self@.chunk_size as nat, self@.offset as nat));
        }
        r
    }

    /// Absorbs the device's acknowledgement of the round just sent.  On
    /// success or on the partial-transfer status the offset advances by
    /// the chunk's length; any other nonzero general status aborts the
    /// whole operation with a device error carrying that status, and the
    /// bytes already sent are not rolled back by this layer.
    pub fn on_ack(&mut self, status: &Status) -> (r: Result<(), CipError>)
        requires
            write_wf(old(self)@),
            old(self)@.offset < old(self)@.data.len(),
        ensures
            write_wf(final(self)@),
            match r {
                Ok(()) => {
                    &&& status.general == 0 || status.general == STATUS_HAS_MORE
                    &&& final(self)@ == (WriteView {
                        data: old(self)@.data,
                        offset: old(self)@.offset + chunk_at(
                            old(self)@.data,
                            old(self)@.chunk_size as nat,
                            old(self)@.offset as nat,
                        ).len() as int,
                        chunk_size: old(self)@.chunk_size,
                    })
                },
                Err(e) => {
                    &&& status.general != 0 && status.general != STATUS_HAS_MORE
                    &&& (e matches CipError::Device { general, extended }
                        && general == status.general && extended@ == status.extended@)
                    &&& *final(self) == *old(self)
                },
            },
    {
        if status.general != 0 && status.general != STATUS_HAS_MORE {
            return Err(
                CipError::Device {
                    general: status.general,
                    extended: slice_to_vec(status.extended.as_slice()),
                },
            );
        }
        let off = self.offset as usize;
        let sent = if self.data.len() - off < self.chunk_size {
            self.data.len() - off
        } else {
            self.chunk_size
        };
        self.offset = self.offset + sent as u32;
        proof {
            assert(chunk_at(
                old(self)@.data,
                old(self)@.chunk_size as nat,
                old(self)@.offset as nat,
            ).len() == sent);
        }
        Ok(())
    }
}

} // verus!
