//! List ID Offset Table (`LOT.VCD`).
//!
//! The table maps a List ID (1-based) to the unit offset of its descriptor in
//! `PSD.VCD`; `0xFFFF` marks an unused entry. Byte offsets are unit offsets
//! times the offset multiplier (8 when unspecified).

use crate::bytes::{be16_at, read_be16};
use vstd::prelude::*;

verus! {

broadcast use vstd::string::group_string_axioms;

/// A parsed `LOT.VCD`.
#[derive(Debug, Clone, PartialEq, Eq)]
pub struct LotTable {
    offsets: Vec<u16>,
    offset_mult: usize,
}

/// The big-endian `u16` entries of a LOT image, one per whole pair of bytes.
pub open spec fn lot_entries(data: Seq<u8>) -> Seq<u16> {
    Seq::new(data.len() / 2, |i: int| be16_at(data, 2 * i))
}

/// The multiplier a table uses: the given one, or 8 for 0.
pub open spec fn effective_mult(m: usize) -> usize {
    if m == 0 {
        8
    } else {
        m
    }
}

/// The unit offset recorded for the 1-based `lid`: none for the reserved
/// slot 0, for a LID past the table, or for an entry marked `0xFFFF`.
pub open spec fn lot_unit(offsets: Seq<u16>, lid: u16) -> Option<u16> {
    if 1 <= lid && (lid as int) < offsets.len() && offsets[lid as int] != 0xFFFF {
        Some(offsets[lid as int])
    } else {
        None
    }
}

/// The valid LIDs among entries `1..n`, in increasing order.
pub open spec fn valid_lids_upto(offsets: Seq<u16>, n: int) -> Seq<u16>
    decreases n,
{
    if n <= 1 {
        seq![]
    } else if offsets[n - 1] != 0xFFFF {
        valid_lids_upto(offsets, n - 1).push((n - 1) as u16)
    } else {
        valid_lids_upto(offsets, n - 1)
    }
}

/// The message of a too-short LOT image.
pub open spec fn lot_too_small_msg() -> Seq<char> {
    "LOT data too small: minimum size is 4 bytes"@
}

impl LotTable {
    /// The entries of the table.
    pub closed spec fn entries(&self) -> Seq<u16> {
        self.offsets@
    }

    /// The multiplier from unit to byte offsets.
    pub closed spec fn mult(&self) -> usize {
        self.offset_mult
    }

    /// Parses a LOT image. Fails exactly when it holds fewer than 4 bytes.
    pub fn parse(data: &[u8], offset_mult: usize) -> (r: Result<Self, String>)
        ensures
            data@.len() < 4 <==> r is Err,
            r matches Err(e) ==> e@ == lot_too_small_msg(),
            r matches Ok(t) ==> t.entries() == lot_entries(data@) && t.mult() == effective_mult(
                offset_mult,
            ),
    {
        if data.len() < 4 {
            return Err(String::from_str("LOT data too small: minimum size is 4 bytes"));
        }
        let mult = if offset_mult == 0 {
            8
        } else {
            offset_mult
        };
        let dlen = data.len();
        let count = dlen / 2;
        let mut offsets: Vec<u16> = Vec::new();
        let mut i: usize = 0;
        while i < count
            invariant
                dlen == data@.len(),
                count == dlen / 2,
                i <= count,
                offsets@ =~= lot_entries(data@).take(i as int),
            decreases count - i,
        {
            offsets.push(read_be16(data, 2 * i));
            i += 1;
        }
        assert(lot_entries(data@).take(count as int) =~= lot_entries(data@));
        Ok(LotTable { offsets, offset_mult: mult })
    }

    /// The offset multiplier (typically 8).
    pub fn offset_multiplier(&self) -> (r: usize)
        ensures
            r == self.mult(),
    {
        self.offset_mult
    }

    /// The unit offset of a 1-based LID; `None` for LID 0, out of range or unused.
    pub fn get_unit_offset(&self, lid: u16) -> (r: Option<u16>)
        ensures
            r == lot_unit(self.entries(), lid),
    {
        let idx = lid as usize;
        if idx >= 1 && idx < self.offsets.len() {
            let val = self.offsets[idx];
            if val != 0xFFFF {
                return Some(val);
            }
        }
        None
    }

    /// The byte offset in `PSD.VCD` of a 1-based LID.
    pub fn get_byte_offset(&self, lid: u16) -> (r: Option<usize>)
        requires
            lot_unit(self.entries(), lid) matches Some(u) ==> u * self.mult() <= usize::MAX,
        ensures
            r == (match lot_unit(self.entries(), lid) {
                Some(u) => Some((u * self.mult()) as usize),
                None => None,
            }),
    {
        match self.get_unit_offset(lid) {
            Some(u) => Some((u as usize) * self.offset_mult),
            None => None,
        }
    }

    /// All valid LIDs (entries after the reserved first one that are not `0xFFFF`).
    pub fn valid_lids(&self) -> (r: Vec<u16>)
        ensures
            r@ == valid_lids_upto(self.entries(), self.entries().len() as int),
    {
        let mut lids: Vec<u16> = Vec::new();
        let n = self.offsets.len();
        let mut idx: usize = 1;
        if n == 0 {
            return lids;
        }
        while idx < n
            invariant
                n == self.offsets@.len(),
                1 <= idx <= n,
                lids@ == valid_lids_upto(self.offsets@, idx as int),
            decreases n - idx,
        {
            if self.offsets[idx] != 0xFFFF {
                lids.push(idx as u16);
            }
            idx += 1;
        }
        lids
    }

    /// The number of entries.
    pub fn entry_count(&self) -> (r: usize)
        ensures
            r == self.entries().len(),
    {
        self.offsets.len()
    }
}

} // verus!
