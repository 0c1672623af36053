//! Big-endian integer fields of the DNS wire format.
use vstd::prelude::*;

verus! {

/// The two octets of `v` in network byte order.
pub open spec fn u16_be(v: u16) -> Seq<u8> {
    seq![(v / 256) as u8, (v % 256) as u8]
}

/// The four octets of `v` in network byte order.
pub open spec fn u32_be(v: u32) -> Seq<u8> {
    seq![
        (v / 0x100_0000) as u8,
        ((v / 0x1_0000) % 256) as u8,
        ((v / 256) % 256) as u8,
        (v % 256) as u8,
    ]
}

/// The big-endian 16-bit value stored in `data` at `pos` and `pos + 1`.
pub open spec fn be16_at(data: Seq<u8>, pos: int) -> u16 {
    (data[pos] as int * 256 + data[pos + 1] as int) as u16
}

/// Reads the big-endian 16-bit value at `pos`, if two octets are left there.
pub fn read_u16_be(data: &[u8], pos: usize) -> (r: Option<u16>)
    ensures
        pos + 2 <= data@.len() ==> r == Some(be16_at(data@, pos as int)),
        pos + 2 > data@.len() ==> r is None,
{
    if pos > data.len() || data.len() - pos < 2 {
        None
    } else {
        let hi = data[pos] as u16;
        let lo = data[pos + 1] as u16;
        Some(hi * 256 + lo)
    }
}

/// Appends `v` in network byte order.
pub fn push_u16_be(buf: &mut Vec<u8>, v: u16)
    ensures
        final(buf)@ == old(buf)@ + u16_be(v),
{
    buf.push((v / 256) as u8);
    buf.push((v % 256) as u8);
    assert(final(buf)@ =~= old(buf)@ + u16_be(v));
}

/// Appends `v` in network byte order.
pub fn push_u32_be(buf: &mut Vec<u8>, v: u32)
    ensures
        final(buf)@ == old(buf)@ + u32_be(v),
{
    buf.push((v / 0x100_0000) as u8);
    buf.push(((v / 0x1_0000) % 256) as u8);
    buf.push(((v / 256) % 256) as u8);
    buf.push((v % 256) as u8);
    assert(final(buf)@ =~= old(buf)@ + u32_be(v));
}

/// Reading back the two octets that encode `v` gives `v`.
pub proof fn lemma_u16_be_round_trip(v: u16)
    ensures
        be16_at(u16_be(v), 0) == v,
{
}

} // verus!
