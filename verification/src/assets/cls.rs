//! The start-up class file (`AUTORUN.CLS`) of a VCD 3.0 disc.
//!
//! It is a Java class; the strings of its constant pool name the cover
//! image, the home page, the opening video and the licence text.

use crate::bytes::{be16_at, be32_at, read_be16, read_be32};
use crate::text::{
    ends_ci, find_char, lossy_string, starts_with, str_ends_ci, str_eq, utf8_lossy, chars_of,
    range_find_char, range_occurs_at, occurs_at,
};
use vstd::prelude::*;

verus! {

broadcast use vstd::string::group_string_axioms;

pub const JAVA_CLASS_MAGIC: u32 = 0xCAFEBABE;

/// Why a class file could not be read.
#[derive(Debug, Clone, PartialEq, Eq)]
pub enum ClsError {
    DataTooSmall(usize),
    InvalidMagic(u32),
    UnsupportedVersion { major: u16, minor: u16 },
    CorruptedConstantPool,
    MissingConfigString(String),
}

impl ClsError {
    /// The text of the error.
    pub fn message(&self) -> (r: String)
        ensures
            r@ == (match *self {
                ClsError::DataTooSmall(n) => "Data too small for Java class: "@
                    + crate::text::dec_digits(n as nat) + " bytes"@,
                ClsError::InvalidMagic(m) => "Invalid class magic: 0x"@ + crate::text::hex_upper(
                    m as nat,
                    8,
                ) + " (expected 0xCAFEBABE)"@,
                ClsError::UnsupportedVersion { major, minor } => "Unsupported Java class version: "@
                    + crate::text::dec_digits(major as nat) + "."@ + crate::text::dec_digits(
                    minor as nat,
                ),
                ClsError::CorruptedConstantPool => "Corrupted constant pool in class file"@,
                ClsError::MissingConfigString(t) => "Missing expected configuration string: "@
                    + t@,
            }),
    {
        let mut s = String::new();
        match self {
            ClsError::DataTooSmall(n) => {
                crate::text::push_str(&mut s, "Data too small for Java class: ");
                crate::text::push_dec(&mut s, *n as u64);
                crate::text::push_str(&mut s, " bytes");
            },
            ClsError::InvalidMagic(m) => {
                crate::text::push_str(&mut s, "Invalid class magic: 0x");
                crate::text::push_hex_upper(&mut s, *m as u64, 8);
                crate::text::push_str(&mut s, " (expected 0xCAFEBABE)");
            },
            ClsError::UnsupportedVersion { major, minor } => {
                crate::text::push_str(&mut s, "Unsupported Java class version: ");
                crate::text::push_dec(&mut s, *major as u64);
                crate::text::push_str(&mut s, ".");
                crate::text::push_dec(&mut s, *minor as u64);
            },
            ClsError::CorruptedConstantPool => {
                crate::text::push_str(&mut s, "Corrupted constant pool in class file");
            },
            ClsError::MissingConfigString(t) => {
                crate::text::push_str(&mut s, "Missing expected configuration string: ");
                crate::text::push_str(&mut s, t.as_str());
            },
        }
        s
    }
}

/// The configuration a start-up class file carries.
#[derive(Debug, Clone, PartialEq, Eq)]
pub struct AutoRunConfig {
    pub user_name: String,
    pub title_name: String,
    pub cover_ybm: String,
    pub license_signature: String,
    pub opening_mpeg: Option<String>,
    pub homepage_chm: String,
}

// ---------------------------------------------------------------------------
// Constant pool
// ---------------------------------------------------------------------------

/// The UTF-8 strings of the constant pool entries `i..count`, read from
/// offset `off`; `None` where an entry runs past the end of the data.
/// An entry with an unknown tag ends the pool.
pub open spec fn cp_strings(d: Seq<u8>, off: int, i: int, count: int) -> Option<Seq<Seq<char>>>
    decreases count - i,
{
    if i >= count {
        Some(seq![])
    } else if off < 0 || off >= d.len() {
        None
    } else {
        let tag = d[off];
        let o = off + 1;
        if tag == 1 {
            if o + 2 > d.len() {
                None
            } else {
                let len = be16_at(d, o) as int;
                if o + 2 + len > d.len() {
                    None
                } else {
                    match cp_strings(d, o + 2 + len, i + 1, count) {
                        Some(rest) => Some(seq![utf8_lossy(d.subrange(o + 2, o + 2 + len))] + rest),
                        None => None,
                    }
                }
            }
        } else if tag == 7 || tag == 8 {
            cp_strings(d, o + 2, i + 1, count)
        } else if (9 <= tag <= 12) || tag == 3 || tag == 4 {
            cp_strings(d, o + 4, i + 1, count)
        } else if tag == 5 || tag == 6 {
            if i + 2 >= count {
                Some(seq![])
            } else {
                cp_strings(d, o + 8, i + 2, count)
            }
        } else {
            Some(seq![])
        }
    }
}

/// Prepends `p` to the strings of a pool scan that did not fail.
pub open spec fn prefixed(p: Seq<Seq<char>>, r: Option<Seq<Seq<char>>>) -> Option<Seq<Seq<char>>> {
    match r {
        Some(rest) => Some(p + rest),
        None => None,
    }
}

// ---------------------------------------------------------------------------
// Configuration
// ---------------------------------------------------------------------------

/// Which field a constant-pool string sets: 0 the user name, 1 the title,
/// 2 the cover image, 3 the home page, 4 the licence text, 5 none.
pub open spec fn cls_kind(s: Seq<char>) -> int {
    if starts_with(s, "UserName"@) {
        0
    } else if starts_with(s, "TitleName"@) {
        1
    } else if ends_ci(s, ".YBM"@) {
        2
    } else if ends_ci(s, ".CHM"@) {
        3
    } else if find_char(s, '^') is Some || find_char(s, '#') is Some {
        4
    } else {
        5
    }
}

/// The last string of kind `k`, or `dflt` when there is none.
pub open spec fn last_of_kind(ss: Seq<Seq<char>>, k: int, dflt: Seq<char>) -> Seq<char>
    decreases ss.len(),
{
    if ss.len() == 0 {
        dflt
    } else if cls_kind(ss.last()) == k {
        ss.last()
    } else {
        last_of_kind(ss.drop_last(), k, dflt)
    }
}

/// The first string that ends in `.DAT`, ignoring case.
pub open spec fn first_dat(ss: Seq<Seq<char>>) -> Option<Seq<char>>
    decreases ss.len(),
{
    if ss.len() == 0 {
        None
    } else {
        match first_dat(ss.drop_last()) {
            Some(x) => Some(x),
            None => if ends_ci(ss.last(), ".DAT"@) {
                Some(ss.last())
            } else {
                None
            },
        }
    }
}

/// The opening video: the first `.DAT` string, else `MUSIC01.DAT` when the
/// class calls `PlayMpeg`, else none.
pub open spec fn opening_of(ss: Seq<Seq<char>>) -> Option<Seq<char>> {
    match first_dat(ss) {
        Some(x) => Some(x),
        None => if ss.contains("PlayMpeg"@) {
            Some("MUSIC01.DAT"@)
        } else {
            None
        },
    }
}

/// The major version a class file records.
pub open spec fn cls_major(d: Seq<u8>) -> u16 {
    be16_at(d, 6)
}

/// The error a class file gives, if any.
pub open spec fn cls_error(d: Seq<u8>) -> Option<ClsError> {
    if d.len() < 10 {
        Some(ClsError::DataTooSmall(d.len() as usize))
    } else if be32_at(d, 0) != JAVA_CLASS_MAGIC {
        Some(ClsError::InvalidMagic(be32_at(d, 0)))
    } else if cls_major(d) > 50 {
        Some(ClsError::UnsupportedVersion { major: cls_major(d), minor: be16_at(d, 4) })
    } else if cp_strings(d, 10, 1, be16_at(d, 8) as int) is None {
        Some(ClsError::CorruptedConstantPool)
    } else {
        None
    }
}

impl AutoRunConfig {
    /// The configuration the constant-pool strings `ss` give.
    pub open spec fn from_strings(&self, ss: Seq<Seq<char>>) -> bool {
        &&& self.user_name@ == last_of_kind(ss, 0, "UserName VCD30"@)
        &&& self.title_name@ == last_of_kind(ss, 1, "TitleName Demo"@)
        &&& self.cover_ybm@ == last_of_kind(ss, 2, "COVER.YBM"@)
        &&& self.homepage_chm@ == last_of_kind(ss, 3, "HOMEPAGE.CHM"@)
        &&& self.license_signature@ == last_of_kind(ss, 4, seq![])
        &&& match opening_of(ss) {
            Some(x) => self.opening_mpeg matches Some(m) && m@ == x,
            None => self.opening_mpeg is None,
        }
    }
}

// ---------------------------------------------------------------------------
// Parsing
// ---------------------------------------------------------------------------

proof fn lemma_prefixed_push(p: Seq<Seq<char>>, x: Seq<char>, r: Option<Seq<Seq<char>>>)
    ensures
        prefixed(p, match r {
            Some(rest) => Some(seq![x] + rest),
            None => None,
        }) == prefixed(p.push(x), r),
{
    match r {
        Some(rest) => {
            assert(p + (seq![x] + rest) =~= p.push(x) + rest);
        },
        None => {},
    }
}

proof fn lemma_prefixed_eq(x: Option<Seq<Seq<char>>>, p: Seq<Seq<char>>, y: Option<Seq<Seq<char>>>)
    requires
        prefixed(seq![], x) == prefixed(p, y),
    ensures
        x is None <==> y is None,
        y == Some(Seq::<Seq<char>>::empty()) ==> x == Some(p),
{
    if let Some(a) = x {
        assert(Seq::<Seq<char>>::empty() + a =~= a);
    }
    if y == Some(Seq::<Seq<char>>::empty()) {
        assert(p + Seq::<Seq<char>>::empty() =~= p);
    }
}

/// Reads the UTF-8 strings of the constant pool.
fn pool_strings(bytes: &[u8]) -> (r: Option<Vec<String>>)
    requires
        bytes@.len() >= 10,
    ensures
        match cp_strings(bytes@, 10, 1, be16_at(bytes@, 8) as int) {
            Some(ss) => r matches Some(v) && v@.map_values(|s: String| s@) == ss,
            None => r is None,
        },
{
    let n = bytes.len();
    let cp_count = read_be16(bytes, 8) as usize;
    let ghost d = bytes@;
    let ghost count = cp_count as int;
    let mut strings: Vec<String> = Vec::new();
    let mut offset: usize = 10;
    let mut i: usize = 1;
    while i < cp_count
        invariant
            d == bytes@,
            n == d.len(),
            count == cp_count,
            count == be16_at(d, 8) as int,
            cp_count <= 0xffff,
            1 <= i <= cp_count + 1,
            offset <= n,
            prefixed(seq![], cp_strings(d, 10, 1, count)) == prefixed(
                strings@.map_values(|s: String| s@),
                cp_strings(d, offset as int, i as int, count),
            ),
        decreases cp_count + 1 - i,
    {
        let ghost sv = strings@.map_values(|s: String| s@);
        proof {
            lemma_prefixed_eq(cp_strings(d, 10, 1, count), sv, cp_strings(d, offset as int, i as int, count));
        }
        if offset >= n {
            assert(cp_strings(d, offset as int, i as int, count) is None);
            return None;
        }
        let tag = bytes[offset];
        offset += 1;
        if tag == 1 {
            if n - offset < 2 {
                assert(offset + 2 > d.len());
                assert(cp_strings(d, offset - 1, i as int, count) is None);
                return None;
            }
            let len = read_be16(bytes, offset) as usize;
            offset += 2;
            if n - offset < len {
                assert(cp_strings(d, offset - 3, i as int, count) is None);
                return None;
            }
            let end = offset + len;
            let mut raw: Vec<u8> = Vec::new();
            let mut k = offset;
            while k < end
                invariant
                    offset <= k <= end <= bytes@.len(),
                    raw@ == bytes@.subrange(offset as int, k as int),
                decreases end - k,
            {
                raw.push(bytes[k]);
                assert(bytes@.subrange(offset as int, k + 1) =~= bytes@.subrange(offset as int, k as int).push(
                    bytes@[k as int],
                ));
                k += 1;
            }
            let s = lossy_string(&raw);
            strings.push(s);
            proof {
                assert(strings@.map_values(|s: String| s@) =~= sv.push(s@));
                lemma_prefixed_push(sv, s@, cp_strings(d, end as int, i + 1, count));
            }
            offset = end;
            i += 1;
        } else {
            let (step, inc): (usize, usize) = if tag == 7 || tag == 8 {
                (2, 1)
            } else if (9 <= tag && tag <= 12) || tag == 3 || tag == 4 {
                (4, 1)
            } else if tag == 5 || tag == 6 {
                (8, 2)
            } else {
                proof {
                    assert(cp_strings(d, offset - 1, i as int, count) == Some(Seq::<Seq<char>>::empty()));
                    assert(sv + Seq::<Seq<char>>::empty() =~= sv);
                }
                return Some(strings);
            };
            assert(cp_strings(d, offset - 1, i as int, count) == (if i + inc >= count {
                Some(Seq::<Seq<char>>::empty())
            } else {
                cp_strings(d, offset + step, i + inc, count)
            }));
            if n - offset < step {
                if i + inc >= cp_count {
                    proof {
                        assert(sv + Seq::<Seq<char>>::empty() =~= sv);
                    }
                    return Some(strings);
                } else {
                    assert(cp_strings(d, offset + step, i + inc, count) is None);
                    return None;
                }
            }
            if i + inc >= cp_count {
                proof {
                    assert(sv + Seq::<Seq<char>>::empty() =~= sv);
                }
                return Some(strings);
            }
            offset += step;
            i += inc;
        }
    }
    proof {
        lemma_prefixed_eq(
            cp_strings(d, 10, 1, count),
            strings@.map_values(|s: String| s@),
            cp_strings(d, offset as int, i as int, count),
        );
    }
    Some(strings)
}

/// Whether `s` contains the character `c`.
fn has_char(s: &str, c: char) -> (r: bool)
    ensures
        r == (find_char(s@, c) is Some),
{
    let v = chars_of(s);
    assert(v@.subrange(0, v@.len() as int) =~= v@);
    range_find_char(&v, 0, v.len(), c).is_some()
}

/// Whether `s` starts with `p`.
fn str_starts(s: &str, p: &str) -> (r: bool)
    ensures
        r == starts_with(s@, p@),
{
    let v = chars_of(s);
    assert(v@.subrange(0, v@.len() as int) =~= v@);
    range_occurs_at(&v, 0, v.len(), p, 0)
}

/// The field a constant-pool string sets (see `cls_kind`).
fn kind_of(s: &str) -> (r: u8)
    ensures
        r == cls_kind(s@),
{
    if str_starts(s, "UserName") {
        proof { reveal_strlit("UserName"); }
        0
    } else if str_starts(s, "TitleName") {
        1
    } else if str_ends_ci(s, ".YBM") {
        2
    } else if str_ends_ci(s, ".CHM") {
        3
    } else if has_char(s, '^') || has_char(s, '#') {
        4
    } else {
        5
    }
}

impl AutoRunConfig {
    /// Reads the configuration of a start-up class file.
    pub fn parse(bytes: &[u8]) -> (r: Result<Self, ClsError>)
        ensures
            match cls_error(bytes@) {
                Some(e) => r == Err::<Self, ClsError>(e),
                None => r matches Ok(cfg) && cfg.from_strings(
                    cp_strings(bytes@, 10, 1, be16_at(bytes@, 8) as int)->Some_0,
                ),
            },
    {
        let n = bytes.len();
        if n < 10 {
            return Err(ClsError::DataTooSmall(n));
        }
        let magic = read_be32(bytes, 0);
        if magic != JAVA_CLASS_MAGIC {
            return Err(ClsError::InvalidMagic(magic));
        }
        let minor = read_be16(bytes, 4);
        let major = read_be16(bytes, 6);
        if major > 50 {
            return Err(ClsError::UnsupportedVersion { major, minor });
        }
        let strings = match pool_strings(bytes) {
            Some(v) => v,
            None => {
                return Err(ClsError::CorruptedConstantPool);
            },
        };
        let ghost ss = strings@.map_values(|s: String| s@);
        let mut user_name = String::from_str("UserName VCD30");
        let mut title_name = String::from_str("TitleName Demo");
        let mut cover_ybm = String::from_str("COVER.YBM");
        let mut license_sig = String::new();
        let mut homepage_chm = String::from_str("HOMEPAGE.CHM");
        let mut has_play_mpeg = false;
        let mut dat: Option<String> = None;
        let mut i: usize = 0;
        while i < strings.len()
            invariant
                ss == strings@.map_values(|s: String| s@),
                i <= ss.len(),
                user_name@ == last_of_kind(ss.take(i as int), 0, "UserName VCD30"@),
                title_name@ == last_of_kind(ss.take(i as int), 1, "TitleName Demo"@),
                cover_ybm@ == last_of_kind(ss.take(i as int), 2, "COVER.YBM"@),
                homepage_chm@ == last_of_kind(ss.take(i as int), 3, "HOMEPAGE.CHM"@),
                license_sig@ == last_of_kind(ss.take(i as int), 4, seq![]),
                has_play_mpeg == ss.take(i as int).contains("PlayMpeg"@),
                match first_dat(ss.take(i as int)) {
                    Some(x) => dat matches Some(m) && m@ == x,
                    None => dat is None,
                },
            decreases ss.len() - i,
        {
            let s = &strings[i];
            let ghost t = ss.take(i as int);
            let ghost t1 = ss.take(i + 1);
            assert(t1.drop_last() =~= t);
            assert(t1.last() == s@);
            if str_eq(s.as_str(), "PlayMpeg") {
                has_play_mpeg = true;
                assert(t1.contains("PlayMpeg"@)) by {
                    assert(t1[i as int] == "PlayMpeg"@);
                }
            } else {
                assert(t1.contains("PlayMpeg"@) == t.contains("PlayMpeg"@)) by {
                    if t1.contains("PlayMpeg"@) {
                        let k = choose|k: int| 0 <= k < t1.len() && t1[k] == "PlayMpeg"@;
                        assert(k < i);
                        assert(t[k] == t1[k]);
                    }
                    if t.contains("PlayMpeg"@) {
                        let k = choose|k: int| 0 <= k < t.len() && t[k] == "PlayMpeg"@;
                        assert(t1[k] == t[k]);
                    }
                }
            }
            if dat.is_none() && str_ends_ci(s.as_str(), ".DAT") {
                dat = Some(s.clone());
            }
            let k = kind_of(s.as_str());
            if k == 0 {
                user_name = s.clone();
            } else if k == 1 {
                title_name = s.clone();
            } else if k == 2 {
                cover_ybm = s.clone();
            } else if k == 3 {
                homepage_chm = s.clone();
            } else if k == 4 {
                license_sig = s.clone();
            }
            i += 1;
        }
        assert(ss.take(ss.len() as int) =~= ss);
        let opening_mpeg = match dat {
            Some(d) => Some(d),
            None => if has_play_mpeg {
                Some(String::from_str("MUSIC01.DAT"))
            } else {
                None
            },
        };
        Ok(AutoRunConfig {
            user_name,
            title_name,
            cover_ybm,
            license_signature: license_sig,
            opening_mpeg,
            homepage_chm,
        })
    }
}

} // verus!
