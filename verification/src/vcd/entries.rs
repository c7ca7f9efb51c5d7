//! The `ENTRIES.VCD` entry point table.

use crate::bytes::{be16_at, read_be16};
use crate::text::{copy_bytes, lossy_trimmed, padded_text, push_dec, push_padded, push_str, trim, utf8_lossy};
use vstd::prelude::*;

verus! {

broadcast use vstd::string::group_string_axioms;

/// One entry point.
#[derive(Debug, Clone, Copy, PartialEq, Eq)]
pub struct VcdEntry {
    /// 1-based index of the entry.
    pub index: usize,
    /// CD track number (decoded from BCD).
    pub track_no: u8,
    /// Minute, second and frame (75 per second), decoded from BCD.
    pub min: u8,
    pub sec: u8,
    pub frame: u8,
}

/// The value of a BCD byte: high nibble times ten plus low nibble.
pub open spec fn bcd(b: u8) -> u8 {
    ((b / 16) * 10 + b % 16) as u8
}

/// Decodes a BCD byte.
pub fn bcd_to_u8(b: u8) -> (r: u8)
    ensures
        r == bcd(b),
{
    let high = b / 16;
    let low = b % 16;
    high * 10 + low
}

/// `MM:SS:FF`, each zero-padded to two digits.
pub open spec fn msf_text(min: u8, sec: u8, frame: u8) -> Seq<char> {
    padded_text(min as nat, 2) + ":"@ + padded_text(sec as nat, 2) + ":"@ + padded_text(frame as nat, 2)
}

impl VcdEntry {
    /// The MSF time as `MM:SS:FF`.
    pub fn msf_string(&self) -> (r: String)
        ensures
            r@ == msf_text(self.min, self.sec, self.frame),
    {
        let mut s = String::new();
        push_padded(&mut s, self.min as u64, 2);
        push_str(&mut s, ":");
        push_padded(&mut s, self.sec as u64, 2);
        push_str(&mut s, ":");
        push_padded(&mut s, self.frame as u64, 2);
        s
    }

    /// The MSF time in frames (75 per second).
    pub fn total_frames(&self) -> (r: u32)
        ensures
            r == self.min * 4500 + self.sec * 75 + self.frame,
    {
        self.min as u32 * 4500 + self.sec as u32 * 75 + self.frame as u32
    }
}

/// A parsed `ENTRIES.VCD`.
#[derive(Debug, Clone, PartialEq, Eq)]
pub struct VcdEntries {
    /// "ENTRYVCD" or "ENTRYSVD".
    pub id: String,
    pub version: u8,
    pub sys_prof_tag: u8,
    /// The declared number of entries.
    pub entry_count: usize,
    /// The entries present in the data.
    pub entries: Vec<VcdEntry>,
}

/// Why an `ENTRIES.VCD` could not be read.
#[derive(Debug, Clone, PartialEq, Eq)]
pub enum EntriesError {
    DataTooSmall(usize),
    Io(String),
}

impl EntriesError {
    /// The text of the error.
    pub fn message(&self) -> (r: String)
        ensures
            r@ == (match *self {
                EntriesError::DataTooSmall(n) => "ENTRIES.VCD data too small: "@ + crate::text::dec_digits(
                    n as nat,
                ) + " bytes (expected >= 12)"@,
                EntriesError::Io(e) => "IO error reading ENTRIES.VCD: "@ + e@,
            }),
    {
        let mut s = String::new();
        match self {
            EntriesError::DataTooSmall(n) => {
                push_str(&mut s, "ENTRIES.VCD data too small: ");
                push_dec(&mut s, *n as u64);
                push_str(&mut s, " bytes (expected >= 12)");
            },
            EntriesError::Io(e) => {
                push_str(&mut s, "IO error reading ENTRIES.VCD: ");
                push_str(&mut s, e.as_str());
            },
        }
        s
    }
}

/// The number of entries present: the declared count, cut to whole 4-byte records.
pub open spec fn present_entries(d: Seq<u8>) -> int {
    let declared = be16_at(d, 10) as int;
    let room = (d.len() - 12) / 4;
    if declared < room { declared } else { room }
}

/// Entry `i` as it is stored in the image.
pub open spec fn entry_at(d: Seq<u8>, i: int) -> VcdEntry {
    VcdEntry {
        index: (i + 1) as usize,
        track_no: bcd(d[12 + 4 * i]),
        min: bcd(d[13 + 4 * i]),
        sec: bcd(d[14 + 4 * i]),
        frame: bcd(d[15 + 4 * i]),
    }
}

impl VcdEntries {
    /// The table holds exactly what an image `d` of at least 12 bytes holds.
    pub open spec fn parsed_from(&self, d: Seq<u8>) -> bool {
        &&& self.id@ == trim(utf8_lossy(d.subrange(0, 8)))
        &&& self.version == d[8]
        &&& self.sys_prof_tag == d[9]
        &&& self.entry_count == be16_at(d, 10) as usize
        &&& self.entries@ == Seq::new(present_entries(d) as nat, |i: int| entry_at(d, i))
    }

    /// Parses an `ENTRIES.VCD` image; fails exactly when it is shorter than 12 bytes.
    pub fn parse(bytes: &[u8]) -> (r: Result<Self, EntriesError>)
        ensures
            bytes@.len() < 12 <==> r is Err,
            r matches Err(e) ==> e == EntriesError::DataTooSmall(bytes@.len() as usize),
            r matches Ok(t) ==> t.parsed_from(bytes@),
    {
        let n = bytes.len();
        if n < 12 {
            return Err(EntriesError::DataTooSmall(n));
        }
        let id = lossy_trimmed(&copy_bytes(bytes, 0, 8));
        let entry_count = read_be16(bytes, 10) as usize;
        let mut entries: Vec<VcdEntry> = Vec::new();
        let mut i: usize = 0;
        let room = (n - 12) / 4;
        while i < entry_count && i < room
            invariant
                n == bytes@.len(),
                n >= 12,
                room == (n - 12) / 4,
                entry_count == be16_at(bytes@, 10),
                i <= room,
                i <= entry_count,
                entries@ =~= Seq::new(i as nat, |k: int| entry_at(bytes@, k)),
            decreases room - i,
        {
            let offset = 12 + i * 4;
            entries.push(VcdEntry {
                index: i + 1,
                track_no: bcd_to_u8(bytes[offset]),
                min: bcd_to_u8(bytes[offset + 1]),
                sec: bcd_to_u8(bytes[offset + 2]),
                frame: bcd_to_u8(bytes[offset + 3]),
            });
            i += 1;
        }
        assert(i as int == present_entries(bytes@));
        Ok(VcdEntries { id, version: bytes[8], sys_prof_tag: bytes[9], entry_count, entries })
    }
}

} // verus!
