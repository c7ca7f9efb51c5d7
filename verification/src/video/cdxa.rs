//! CD-XA sector demuxing.
//!
//! `MPEGAV/*.DAT` files wrap an MPEG-1 program stream in a RIFF `CDXA`
//! container of raw Mode 2 Form 2 sectors, 2352 bytes each: 24 bytes of sync,
//! header and subheader, 2324 bytes of payload, 4 bytes of EDC. Demuxing keeps
//! the payloads and drops any zero padding before the first MPEG start code.

use vstd::prelude::*;

verus! {

broadcast use vstd::string::group_string_axioms;

pub const SECTOR_SIZE: usize = 2352;

pub const SECTOR_HEADER_SIZE: usize = 24;

pub const SECTOR_PAYLOAD_SIZE: usize = 2324;

/// Whether `d` starts with a RIFF header of form `CDXA`.
pub open spec fn is_riff_cdxa(d: Seq<u8>) -> bool {
    &&& d.len() >= 12
    &&& d[0] == 0x52 && d[1] == 0x49 && d[2] == 0x46 && d[3] == 0x46
    &&& d[8] == 0x43 && d[9] == 0x44 && d[10] == 0x58 && d[11] == 0x41
}

/// Whether the four bytes at `i` spell `data`.
pub open spec fn data_tag_at(d: Seq<u8>, i: int) -> bool {
    d[i] == 0x64 && d[i + 1] == 0x61 && d[i + 2] == 0x74 && d[i + 3] == 0x61
}

/// The first `i` in `from..end` where a `data` tag stands.
pub open spec fn data_scan(d: Seq<u8>, from: int, end: int) -> Option<int>
    decreases end - from,
{
    if from >= end {
        None
    } else if data_tag_at(d, from) {
        Some(from)
    } else {
        data_scan(d, from + 1, end)
    }
}

/// Where the search for the `data` chunk stops: 8 bytes before the end, and
/// at most at offset 256.
pub open spec fn scan_end(d: Seq<u8>) -> int {
    let e = if d.len() >= 8 {
        d.len() - 8
    } else {
        0
    };
    if e < 256 {
        e
    } else {
        256
    }
}

/// Where the sectors start: after the `data` chunk header, or at 44 when no
/// `data` tag was found.
pub open spec fn payload_offset(d: Seq<u8>) -> int {
    match data_scan(d, 12, scan_end(d)) {
        Some(i) => i + 8,
        None => 44,
    }
}

/// The payloads of the sectors in `s`, in order; a trailing partial sector
/// gives what it holds after its header.
pub open spec fn payload_stream(s: Seq<u8>) -> Seq<u8>
    decreases s.len(),
{
    if s.len() >= 2352 {
        s.subrange(24, 2348) + payload_stream(s.subrange(2352, s.len() as int))
    } else if s.len() > 24 {
        s.subrange(24, if s.len() < 2348 {
            s.len() as int
        } else {
            2348
        })
    } else {
        seq![]
    }
}

/// Whether an MPEG pack, system or sequence header starts at `i`.
pub open spec fn start_code_at(d: Seq<u8>, i: int) -> bool {
    &&& d[i] == 0 && d[i + 1] == 0 && d[i + 2] == 1
    &&& (d[i + 3] == 0xBA || d[i + 3] == 0xBB || d[i + 3] == 0xB3)
}

/// The first `i` in `from..end` where a start code stands.
pub open spec fn start_scan(d: Seq<u8>, from: int, end: int) -> Option<int>
    decreases end - from,
{
    if from >= end {
        None
    } else if start_code_at(d, from) {
        Some(from)
    } else {
        start_scan(d, from + 1, end)
    }
}

/// The first start code of a stream; positions up to `len - 5` are searched.
pub open spec fn first_start_code(d: Seq<u8>) -> Option<int> {
    if d.len() < 4 {
        None
    } else {
        start_scan(d, 0, d.len() - 4)
    }
}

/// The stream from its first start code on (the whole stream when it has none).
pub open spec fn trim_to_start(d: Seq<u8>) -> Seq<u8> {
    match first_start_code(d) {
        Some(p) => d.subrange(p, d.len() as int),
        None => d,
    }
}

/// What demuxing `d` gives: `None` when the RIFF header points past the end.
pub open spec fn demuxed(d: Seq<u8>) -> Option<Seq<u8>> {
    if d.len() < 44 || !is_riff_cdxa(d) {
        Some(d)
    } else if payload_offset(d) >= d.len() {
        None
    } else {
        Some(trim_to_start(payload_stream(d.subrange(payload_offset(d), d.len() as int))))
    }
}

fn append_range(out: &mut Vec<u8>, d: &[u8], lo: usize, hi: usize)
    requires
        lo <= hi <= d@.len(),
    ensures
        final(out)@ == old(out)@ + d@.subrange(lo as int, hi as int),
{
    let mut i = lo;
    while i < hi
        invariant
            lo <= i <= hi <= d@.len(),
            out@ == old(out)@ + d@.subrange(lo as int, i as int),
        decreases hi - i,
    {
        out.push(d[i]);
        assert(d@.subrange(lo as int, i + 1) =~= d@.subrange(lo as int, i as int).push(d@[i as int]));
        i += 1;
    }
}

proof fn lemma_payload_step(d: Seq<u8>, base: int, k: int)
    requires
        0 <= base,
        0 <= k,
        base + k * 2352 + 2352 <= d.len(),
    ensures
        payload_stream(d.subrange(base + k * 2352, d.len() as int)) == d.subrange(
            base + k * 2352 + 24,
            base + k * 2352 + 2348,
        ) + payload_stream(d.subrange(base + (k + 1) * 2352, d.len() as int)),
{
    let t = d.subrange(base + k * 2352, d.len() as int);
    assert(t.subrange(24, 2348) =~= d.subrange(base + k * 2352 + 24, base + k * 2352 + 2348));
    assert(t.subrange(2352, t.len() as int) =~= d.subrange(base + (k + 1) * 2352, d.len() as int));
}

fn find_data_chunk(data: &[u8]) -> (r: Option<usize>)
    requires
        data@.len() >= 44,
    ensures
        match r {
            Some(i) => data_scan(data@, 12, scan_end(data@)) == Some(i as int) && i < 256,
            None => data_scan(data@, 12, scan_end(data@)) is None,
        },
{
    let n = data.len();
    let end: usize = if n - 8 < 256 {
        n - 8
    } else {
        256
    };
    let mut i: usize = 12;
    while i < end
        invariant
            n == data@.len(),
            n >= 44,
            end == scan_end(data@),
            12 <= i,
            end <= 256,
            end + 8 <= n,
            i <= end || end < 12,
            data_scan(data@, 12, end as int) == data_scan(data@, i as int, end as int),
        decreases end - i,
    {
        if data[i] == 0x64 && data[i + 1] == 0x61 && data[i + 2] == 0x74 && data[i + 3] == 0x61 {
            return Some(i);
        }
        i += 1;
    }
    None
}

fn find_mpeg_start_code(d: &Vec<u8>) -> (r: Option<usize>)
    ensures
        match r {
            Some(p) => first_start_code(d@) == Some(p as int) && p < d@.len(),
            None => first_start_code(d@) is None,
        },
{
    if d.len() < 4 {
        return None;
    }
    let end = d.len() - 4;
    let mut i: usize = 0;
    while i < end
        invariant
            d@.len() >= 4,
            end + 4 == d@.len(),
            d@.len() == d.len(),
            i <= end,
            first_start_code(d@) == start_scan(d@, i as int, end as int),
        decreases end - i,
    {
        if d[i] == 0 && d[i + 1] == 0 && d[i + 2] == 1 {
            let code = d[i + 3];
            if code == 0xBA || code == 0xBB || code == 0xB3 {
                return Some(i);
            }
        }
        i += 1;
    }
    None
}

/// Extracts the MPEG-1 program stream of a `.DAT` file.
///
/// Data that is shorter than a RIFF header, or is not RIFF `CDXA`, is returned
/// as it is.
pub fn extract_mpeg_ps(data: &[u8]) -> (r: Result<Vec<u8>, String>)
    ensures
        match r {
            Ok(v) => demuxed(data@) == Some(v@),
            Err(e) => demuxed(data@) is None && e@ == "RIFF/CDXA file contains empty data chunk"@,
        },
{
    let n = data.len();
    assert(data@.subrange(0, n as int) =~= data@);
    if n < 44 {
        return Ok(crate::text::copy_bytes(data, 0, n));
    }
    let riff = data[0] == 0x52 && data[1] == 0x49 && data[2] == 0x46 && data[3] == 0x46
        && data[8] == 0x43 && data[9] == 0x44 && data[10] == 0x58 && data[11] == 0x41;
    if !riff {
        return Ok(crate::text::copy_bytes(data, 0, n));
    }
    let off = match find_data_chunk(data) {
        Some(i) => i + 8,
        None => 44,
    };
    if off >= n {
        return Err(String::from_str("RIFF/CDXA file contains empty data chunk"));
    }
    let ghost sd = data@.subrange(off as int, n as int);
    let num = (n - off) / 2352;
    assert(num * 2352 <= n - off) by (nonlinear_arith)
        requires
            num == (n - off) / 2352,
            off < n,
    ;
    let mut ps: Vec<u8> = Vec::new();
    let mut s: usize = 0;
    while s < num
        invariant
            n == data@.len(),
            off < n,
            num == (n - off) / 2352,
            num * 2352 <= n - off,
            s <= num,
            sd == data@.subrange(off as int, n as int),
            payload_stream(sd) == ps@ + payload_stream(data@.subrange(off + s * 2352, n as int)),
        decreases num - s,
    {
        proof {
            lemma_payload_step(data@, off as int, s as int);
        }
        let lo = off + s * 2352;
        let ghost prev = ps@;
        append_range(&mut ps, data, lo + 24, lo + 2348);
        assert(ps@ + payload_stream(data@.subrange(off + (s + 1) * 2352, n as int)) =~= prev + (
        data@.subrange(lo + 24, lo + 2348) + payload_stream(
            data@.subrange(off + (s + 1) * 2352, n as int),
        )));
        s += 1;
    }
    assert(sd =~= data@.subrange(off + 0 * 2352, n as int));
    let rem = off + num * 2352;
    let ghost tail = data@.subrange(rem as int, n as int);
    assert(tail.len() < 2352);
    if rem + 24 < n {
        let avail = if n - rem - 24 < 2324 {
            n - rem - 24
        } else {
            2324
        };
        let ghost before = ps@;
        append_range(&mut ps, data, rem + 24, rem + 24 + avail);
        assert(tail.subrange(24, if tail.len() < 2348 {
            tail.len() as int
        } else {
            2348
        }) =~= data@.subrange(rem + 24, rem + 24 + avail));
        assert(ps@ == before + payload_stream(tail));
    } else {
        assert(payload_stream(tail) =~= Seq::<u8>::empty());
        assert(ps@ =~= ps@ + payload_stream(tail));
    }
    assert(ps@ == payload_stream(sd));
    match find_mpeg_start_code(&ps) {
        Some(p) => {
            let m = ps.len();
            let out = crate::text::copy_bytes(ps.as_slice(), p, m);
            Ok(out)
        },
        None => Ok(ps),
    }
}

} // verus!
