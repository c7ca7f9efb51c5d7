//! The `INFO.VCD` system file.

use crate::bytes::{be16_at, be32_at, read_be16, read_be32};
use crate::text::{copy_bytes, lossy_trimmed, push_dec, push_str, str_eq, trim, utf8_lossy};
use vstd::prelude::*;

verus! {

broadcast use vstd::string::group_string_axioms;

/// A parsed `INFO.VCD`.
#[derive(Debug, Clone, PartialEq, Eq)]
pub struct VcdInfo {
    /// System ID, e.g. "VIDEO_CD", "SUPERVCD", "HQ-VCD".
    pub id: String,
    /// Specification version (2 for VCD 2.0).
    pub version: u8,
    /// System profile tag (1 for VCD 1.1).
    pub sys_prof_tag: u8,
    /// Album description.
    pub album_desc: String,
    pub vol_count: u16,
    pub vol_id: u16,
    /// PAL / NTSC flags for tracks 2..=99.
    pub pal_flags: [u8; 13],
    pub flags: u8,
    /// Size of PSD.VCD in bytes (0 when not interactive).
    pub psd_size: u32,
    /// First segment address (BCD mm:ss:00).
    pub first_seg_addr: [u8; 3],
    /// Offset multiplier (typically 8).
    pub offset_mult: u8,
    /// Number of valid LOT entries.
    pub lot_entries: u16,
    /// Number of segment items used.
    pub item_count: u16,
    /// Segment play item contents.
    pub spi_contents: Vec<u8>,
}

/// Why an `INFO.VCD` could not be read.
#[derive(Debug, Clone, PartialEq, Eq)]
pub enum InfoError {
    DataTooSmall(usize),
    Io(String),
}

impl InfoError {
    /// The text of the error.
    pub fn message(&self) -> (r: String)
        ensures
            r@ == (match *self {
                InfoError::DataTooSmall(n) => "INFO.VCD data too small: "@ + crate::text::dec_digits(
                    n as nat,
                ) + " bytes (expected >= 56)"@,
                InfoError::Io(e) => "IO error reading INFO.VCD: "@ + e@,
            }),
    {
        let mut s = String::new();
        match self {
            InfoError::DataTooSmall(n) => {
                push_str(&mut s, "INFO.VCD data too small: ");
                push_dec(&mut s, *n as u64);
                push_str(&mut s, " bytes (expected >= 56)");
            },
            InfoError::Io(e) => {
                push_str(&mut s, "IO error reading INFO.VCD: ");
                push_str(&mut s, e.as_str());
            },
        }
        s
    }
}

/// The end of the SPI contents: at most `min(item_count, 1980)` bytes after offset 56.
pub open spec fn spi_end(d: Seq<u8>) -> int {
    let spi_len = if be16_at(d, 54) < 1980 { be16_at(d, 54) as int } else { 1980 };
    if d.len() >= 56 + spi_len {
        56 + spi_len
    } else {
        d.len() as int
    }
}

impl VcdInfo {
    /// The record holds exactly the fields of an image `d` of at least 56 bytes.
    pub open spec fn parsed_from(&self, d: Seq<u8>) -> bool {
        &&& self.id@ == trim(utf8_lossy(d.subrange(0, 8)))
        &&& self.version == d[8]
        &&& self.sys_prof_tag == d[9]
        &&& self.album_desc@ == trim(utf8_lossy(d.subrange(10, 26)))
        &&& self.vol_count == be16_at(d, 26)
        &&& self.vol_id == be16_at(d, 28)
        &&& self.pal_flags@ == d.subrange(30, 43)
        &&& self.flags == d[43]
        &&& self.psd_size == be32_at(d, 44)
        &&& self.first_seg_addr@ == d.subrange(48, 51)
        &&& self.offset_mult == d[51]
        &&& self.lot_entries == be16_at(d, 52)
        &&& self.item_count == be16_at(d, 54)
        &&& self.spi_contents@ == d.subrange(56, spi_end(d))
    }

    /// Parses an `INFO.VCD` image; fails exactly when it is shorter than 56 bytes.
    pub fn parse(bytes: &[u8]) -> (r: Result<Self, InfoError>)
        ensures
            bytes@.len() < 56 <==> r is Err,
            r matches Err(e) ==> e == InfoError::DataTooSmall(bytes@.len() as usize),
            r matches Ok(info) ==> info.parsed_from(bytes@),
    {
        if bytes.len() < 56 {
            return Err(InfoError::DataTooSmall(bytes.len()));
        }
        let id = lossy_trimmed(&copy_bytes(bytes, 0, 8));
        let album_desc = lossy_trimmed(&copy_bytes(bytes, 10, 26));
        let pal_flags: [u8; 13] = [
            bytes[30], bytes[31], bytes[32], bytes[33], bytes[34], bytes[35], bytes[36],
            bytes[37], bytes[38], bytes[39], bytes[40], bytes[41], bytes[42],
        ];
        let first_seg_addr: [u8; 3] = [bytes[48], bytes[49], bytes[50]];
        let item_count = read_be16(bytes, 54);
        let spi_len: usize = if (item_count as usize) < 1980 {
            item_count as usize
        } else {
            1980
        };
        let end = if bytes.len() >= 56 + spi_len {
            56 + spi_len
        } else {
            bytes.len()
        };
        let spi_contents = copy_bytes(bytes, 56, end);
        assert(pal_flags@ =~= bytes@.subrange(30, 43));
        assert(first_seg_addr@ =~= bytes@.subrange(48, 51));
        Ok(VcdInfo {
            id,
            version: bytes[8],
            sys_prof_tag: bytes[9],
            album_desc,
            vol_count: read_be16(bytes, 26),
            vol_id: read_be16(bytes, 28),
            pal_flags,
            flags: bytes[43],
            psd_size: read_be32(bytes, 44),
            first_seg_addr,
            offset_mult: bytes[51],
            lot_entries: read_be16(bytes, 52),
            item_count,
            spi_contents,
        })
    }

    /// Declared as VCD 2.0: id "VIDEO_CD" and version 2.
    pub fn is_vcd20(&self) -> (r: bool)
        ensures
            r == (self.id@ == "VIDEO_CD"@ && self.version == 2),
    {
        str_eq(self.id.as_str(), "VIDEO_CD") && self.version == 2
    }

    /// Has Playback Control structures (PSD size above 0).
    pub fn has_pbc(&self) -> (r: bool)
        ensures
            r == (self.psd_size > 0),
    {
        self.psd_size > 0
    }
}

} // verus!
