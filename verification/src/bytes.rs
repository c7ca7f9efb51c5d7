//! Big-endian field decoding over byte buffers.

use vstd::prelude::*;

verus! {

/// The big-endian unsigned value of two bytes.
pub open spec fn be16(b0: u8, b1: u8) -> u16 {
    (b0 as int * 256 + b1 as int) as u16
}

/// The big-endian unsigned value of four bytes.
pub open spec fn be32(b0: u8, b1: u8, b2: u8, b3: u8) -> u32 {
    (b0 as int * 16777216 + b1 as int * 65536 + b2 as int * 256 + b3 as int) as u32
}

/// The big-endian `u16` stored at `off` in `s`.
pub open spec fn be16_at(s: Seq<u8>, off: int) -> u16 {
    be16(s[off], s[off + 1])
}

/// The big-endian `u32` stored at `off` in `s`.
pub open spec fn be32_at(s: Seq<u8>, off: int) -> u32 {
    be32(s[off], s[off + 1], s[off + 2], s[off + 3])
}

/// Reads a big-endian `u16` at `off`.
pub fn read_be16(data: &[u8], off: usize) -> (r: u16)
    requires
        off + 2 <= data@.len(),
    ensures
        r == be16_at(data@, off as int),
{
    let hi: u16 = data[off] as u16;
    let lo: u16 = data[off + 1] as u16;
    hi * 256 + lo
}

/// Reads a big-endian `u32` at `off`.
pub fn read_be32(data: &[u8], off: usize) -> (r: u32)
    requires
        off + 4 <= data@.len(),
    ensures
        r == be32_at(data@, off as int),
{
    let b0: u32 = data[off] as u32;
    let b1: u32 = data[off + 1] as u32;
    let b2: u32 = data[off + 2] as u32;
    let b3: u32 = data[off + 3] as u32;
    b0 * 16777216 + b1 * 65536 + b2 * 256 + b3
}

/// The length of the NUL-terminated prefix of `s` (all of `s` when it holds no NUL).
pub open spec fn nt_len(s: Seq<u8>) -> int
    decreases s.len(),
{
    if s.len() == 0 {
        0
    } else if s[0] == 0 {
        0
    } else {
        1 + nt_len(s.drop_first())
    }
}

/// The bytes of `s` before its first NUL.
pub open spec fn nt(s: Seq<u8>) -> Seq<u8> {
    s.take(nt_len(s))
}

proof fn lemma_nt_len_bounds(s: Seq<u8>)
    ensures
        0 <= nt_len(s) <= s.len(),
    decreases s.len(),
{
    if s.len() > 0 && s[0] != 0 {
        lemma_nt_len_bounds(s.drop_first());
    }
}

/// The end of the NUL-terminated prefix of `data[lo..hi]`.
pub fn nt_end(data: &[u8], lo: usize, hi: usize) -> (r: usize)
    requires
        lo <= hi <= data@.len(),
    ensures
        lo <= r <= hi,
        r - lo == nt_len(data@.subrange(lo as int, hi as int)),
{
    let mut i = lo;
    while i < hi && data[i] != 0
        invariant
            lo <= i <= hi <= data@.len(),
            nt_len(data@.subrange(lo as int, hi as int)) == (i - lo) + nt_len(data@.subrange(i as int, hi as int)),
        decreases hi - i,
    {
        assert(data@.subrange(i as int, hi as int).drop_first() =~= data@.subrange(i + 1, hi as int));
        i += 1;
    }
    i
}

/// Reads a big-endian `u32` at `off` as a two's-complement `i32`.
pub fn read_be_i32(data: &[u8], off: usize) -> (r: i32)
    requires
        off + 4 <= data@.len(),
    ensures
        r == be32_at(data@, off as int) as i32,
{
    read_be32(data, off) as i32
}

} // verus!
