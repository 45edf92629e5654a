//! Little-endian 16-bit fields of the wire format.

use vstd::prelude::*;

verus! {

/// The value of a 16-bit little-endian field whose bytes are `lo`, `hi`.
pub open spec fn u16_le(lo: u8, hi: u8) -> u16 {
    (lo + hi * 256) as u16
}

/// The two little-endian bytes of a 16-bit value.
pub open spec fn u16_bytes(v: u16) -> Seq<u8> {
    seq![(v as int % 256) as u8, (v as int / 256) as u8]
}

/// Reading back the two bytes of a value yields the value.
pub proof fn lemma_u16_round_trip(v: u16)
    ensures
        u16_le(u16_bytes(v)[0], u16_bytes(v)[1]) == v,
{
    assert(v as int % 256 + (v as int / 256) * 256 == v as int) by {
        vstd::arithmetic::div_mod::lemma_fundamental_div_mod(v as int, 256);
    }
}

/// Reads the 16-bit little-endian field at `pos`.
pub fn read_u16_le(buf: &[u8], pos: usize) -> (r: u16)
    requires
        pos + 2 <= buf@.len(),
    ensures
        r == u16_le(buf@[pos as int], buf@[pos + 1]),
{
    let lo = buf[pos];
    let hi = buf[pos + 1];
    lo as u16 + (hi as u16) * 256
}

/// Appends the two little-endian bytes of `v` to `out`.
pub fn write_u16_le(out: &mut Vec<u8>, v: u16)
    ensures
        final(out)@ == old(out)@ + u16_bytes(v),
{
    out.push((v % 256) as u8);
    out.push((v / 256) as u8);
    proof {
        assert(out@ =~= old(out)@ + u16_bytes(v));
    }
}

} // verus!
