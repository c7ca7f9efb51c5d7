//! Play Sequence Descriptor table (`PSD.VCD`).
//!
//! Descriptors are `PlayList` (0x10), `SelectionList` (0x18), extended
//! `SelectionList` (0x1A, followed by its area data) and `EndList` (0x1F). Zero bytes and unknown type bytes between descriptors are skipped
//! one at a time; a descriptor cut short by the end of the data ends the scan.

use crate::bytes::{be16_at, read_be16};
use crate::text::copy_bytes;
use crate::vcd::lot::{effective_mult, lot_unit, LotTable};
use std::collections::HashMap;
use vstd::prelude::*;

verus! {

broadcast use vstd::std_specs::hash::group_hash_axioms;

/// PlayList descriptor (0x10).
#[derive(Debug, PartialEq, Eq)]
pub struct PlayListDesc {
    pub byte_offset: usize,
    pub unit_offset: u16,
    pub noi: u8,
    pub lid: u16,
    pub prev_ofs: u16,
    pub next_ofs: u16,
    pub return_ofs: u16,
    /// Playing time in 1/15 second units (0 = whole item).
    pub ptime: u16,
    /// Wait after playback in seconds (0 = go on at once, 255 = wait forever).
    pub wtime: u8,
    pub atime: u8,
    /// Item numbers: 2..=99 are MPEG tracks, 1000.. are segment items.
    pub items: Vec<u16>,
}

/// SelectionList descriptor: standard (0x18) or extended (0x1A).
#[derive(Debug, PartialEq, Eq)]
pub struct SelectionListDesc {
    /// The type byte: 0x18, or 0x1A for an extended list.
    pub descriptor_tag: u8,
    pub byte_offset: usize,
    pub unit_offset: u16,
    pub flags: u8,
    pub nos: u8,
    pub bsn: u8,
    pub lid: u16,
    pub prev_ofs: u16,
    pub next_ofs: u16,
    pub return_ofs: u16,
    pub default_ofs: u16,
    pub timeout_ofs: u16,
    /// Timeout in seconds (0 = none).
    pub timeout_time: u8,
    pub loop_count: u8,
    pub item_id: u16,
    /// Target unit offsets of selections `bsn..bsn+nos`.
    pub selections: Vec<u16>,
    /// Of an extended list, its area data: 16 bytes for the list, then 4 per
    /// selection; empty for a standard one.
    pub ext_area_data: Vec<u8>,
}

/// EndList descriptor (0x1F).
#[derive(Debug, Clone, Copy, PartialEq, Eq)]
pub struct EndListDesc {
    pub byte_offset: usize,
    pub unit_offset: u16,
    pub next_disc: u8,
    pub change_pic: u16,
}

/// One descriptor of the table.
#[derive(Debug, PartialEq, Eq)]
pub enum PsdDescriptor {
    PlayList(PlayListDesc),
    SelectionList(SelectionListDesc),
    EndList(EndListDesc),
}

/// The abstract value of a `PlayListDesc`.
pub struct PlayListView {
    pub byte_offset: usize,
    pub unit_offset: u16,
    pub noi: u8,
    pub lid: u16,
    pub prev_ofs: u16,
    pub next_ofs: u16,
    pub return_ofs: u16,
    pub ptime: u16,
    pub wtime: u8,
    pub atime: u8,
    pub items: Seq<u16>,
}

/// The abstract value of a `SelectionListDesc`.
pub struct SelectionListView {
    pub descriptor_tag: u8,
    pub byte_offset: usize,
    pub unit_offset: u16,
    pub flags: u8,
    pub nos: u8,
    pub bsn: u8,
    pub lid: u16,
    pub prev_ofs: u16,
    pub next_ofs: u16,
    pub return_ofs: u16,
    pub default_ofs: u16,
    pub timeout_ofs: u16,
    pub timeout_time: u8,
    pub loop_count: u8,
    pub item_id: u16,
    pub selections: Seq<u16>,
    pub ext_area_data: Seq<u8>,
}

/// The abstract value of a descriptor.
pub enum DescView {
    PlayList(PlayListView),
    SelectionList(SelectionListView),
    EndList(EndListDesc),
}

impl View for PlayListDesc {
    type V = PlayListView;

    open spec fn view(&self) -> PlayListView {
        PlayListView {
            byte_offset: self.byte_offset,
            unit_offset: self.unit_offset,
            noi: self.noi,
            lid: self.lid,
            prev_ofs: self.prev_ofs,
            next_ofs: self.next_ofs,
            return_ofs: self.return_ofs,
            ptime: self.ptime,
            wtime: self.wtime,
            atime: self.atime,
            items: self.items@,
        }
    }
}

impl View for SelectionListDesc {
    type V = SelectionListView;

    open spec fn view(&self) -> SelectionListView {
        SelectionListView {
            descriptor_tag: self.descriptor_tag,
            byte_offset: self.byte_offset,
            unit_offset: self.unit_offset,
            flags: self.flags,
            nos: self.nos,
            bsn: self.bsn,
            lid: self.lid,
            prev_ofs: self.prev_ofs,
            next_ofs: self.next_ofs,
            return_ofs: self.return_ofs,
            default_ofs: self.default_ofs,
            timeout_ofs: self.timeout_ofs,
            timeout_time: self.timeout_time,
            loop_count: self.loop_count,
            item_id: self.item_id,
            selections: self.selections@,
            ext_area_data: self.ext_area_data@,
        }
    }
}

impl View for PsdDescriptor {
    type V = DescView;

    open spec fn view(&self) -> DescView {
        match self {
            PsdDescriptor::PlayList(p) => DescView::PlayList(p@),
            PsdDescriptor::SelectionList(s) => DescView::SelectionList(s@),
            PsdDescriptor::EndList(e) => DescView::EndList(*e),
        }
    }
}

fn copy_u16s(v: &Vec<u16>) -> (r: Vec<u16>)
    ensures
        r@ == v@,
{
    let mut r: Vec<u16> = Vec::new();
    let mut i: usize = 0;
    while i < v.len()
        invariant
            i <= v@.len(),
            r@ == v@.take(i as int),
        decreases v@.len() - i,
    {
        r.push(v[i]);
        assert(v@.take(i + 1) =~= v@.take(i as int).push(v@[i as int]));
        i += 1;
    }
    assert(v@.take(v@.len() as int) =~= v@);
    r
}

impl Clone for PlayListDesc {
    fn clone(&self) -> (r: Self)
        ensures
            r@ == self@,
    {
        PlayListDesc {
            byte_offset: self.byte_offset,
            unit_offset: self.unit_offset,
            noi: self.noi,
            lid: self.lid,
            prev_ofs: self.prev_ofs,
            next_ofs: self.next_ofs,
            return_ofs: self.return_ofs,
            ptime: self.ptime,
            wtime: self.wtime,
            atime: self.atime,
            items: copy_u16s(&self.items),
        }
    }
}

impl Clone for SelectionListDesc {
    fn clone(&self) -> (r: Self)
        ensures
            r@ == self@,
    {
        let ext = copy_bytes(self.ext_area_data.as_slice(), 0, self.ext_area_data.len());
        assert(self.ext_area_data@.subrange(0, self.ext_area_data@.len() as int) =~= self.ext_area_data@);
        SelectionListDesc {
            descriptor_tag: self.descriptor_tag,
            byte_offset: self.byte_offset,
            unit_offset: self.unit_offset,
            flags: self.flags,
            nos: self.nos,
            bsn: self.bsn,
            lid: self.lid,
            prev_ofs: self.prev_ofs,
            next_ofs: self.next_ofs,
            return_ofs: self.return_ofs,
            default_ofs: self.default_ofs,
            timeout_ofs: self.timeout_ofs,
            timeout_time: self.timeout_time,
            loop_count: self.loop_count,
            item_id: self.item_id,
            selections: copy_u16s(&self.selections),
            ext_area_data: ext,
        }
    }
}

impl Clone for PsdDescriptor {
    fn clone(&self) -> (r: Self)
        ensures
            r@ == self@,
    {
        match self {
            PsdDescriptor::PlayList(p) => PsdDescriptor::PlayList(p.clone()),
            PsdDescriptor::SelectionList(s) => PsdDescriptor::SelectionList(s.clone()),
            PsdDescriptor::EndList(e) => PsdDescriptor::EndList(*e),
        }
    }
}

/// What the scanner does at one position.
pub enum Scan {
    /// Move on by one byte.
    Skip,
    /// A descriptor of the given length starts here; move on by the advance.
    Take(int, int),
    /// The data ends inside a descriptor: stop.
    Stop,
}

/// The scanner's decision at `pos` (`pos` inside the data).
pub open spec fn scan_at(d: Seq<u8>, pos: int) -> Scan {
    let t = d[pos];
    if t == 0x10 {
        if pos + 14 > d.len() {
            Scan::Stop
        } else if pos + 14 + d[pos + 1] * 2 > d.len() {
            Scan::Stop
        } else {
            Scan::Take(14 + d[pos + 1] * 2, 14 + d[pos + 1] * 2)
        }
    } else if t == 0x18 {
        if pos + 20 > d.len() {
            Scan::Stop
        } else if pos + 20 + d[pos + 2] * 2 > d.len() {
            Scan::Stop
        } else {
            Scan::Take(20 + d[pos + 2] * 2, 20 + d[pos + 2] * 2)
        }
    } else if t == 0x1A {
        if pos + 20 > d.len() {
            Scan::Stop
        } else if pos + 36 + d[pos + 2] * 6 > d.len() {
            Scan::Stop
        } else {
            Scan::Take(36 + d[pos + 2] * 6, 36 + d[pos + 2] * 6)
        }
    } else if t == 0x1F {
        if pos + 4 > d.len() {
            Scan::Stop
        } else {
            Scan::Take(4, 8)
        }
    } else {
        Scan::Skip
    }
}

/// The start positions of the descriptors found from `pos` on.
pub open spec fn starts_from(d: Seq<u8>, pos: int) -> Seq<int>
    decreases d.len() - pos,
{
    if pos < 0 || pos >= d.len() {
        seq![]
    } else {
        match scan_at(d, pos) {
            Scan::Skip => starts_from(d, pos + 1),
            Scan::Stop => seq![],
            Scan::Take(_, adv) => if adv <= 0 {
                seq![]
            } else if pos + adv >= d.len() {
                seq![pos]
            } else {
                seq![pos] + starts_from(d, pos + adv)
            },
        }
    }
}

/// The start positions of all descriptors in a PSD image.
pub open spec fn desc_starts(d: Seq<u8>) -> Seq<int> {
    starts_from(d, 0)
}

/// `desc` is the descriptor a PSD image holds at `pos`, with multiplier `mult`.
pub open spec fn parsed_at(desc: PsdDescriptor, d: Seq<u8>, pos: int, mult: usize) -> bool {
    let unit = (pos / (mult as int)) as u16;
    match desc {
        PsdDescriptor::PlayList(p) => {
            &&& d[pos] == 0x10
            &&& p.byte_offset == pos
            &&& p.unit_offset == unit
            &&& p.noi == d[pos + 1]
            &&& p.lid == be16_at(d, pos + 2)
            &&& p.prev_ofs == be16_at(d, pos + 4)
            &&& p.next_ofs == be16_at(d, pos + 6)
            &&& p.return_ofs == be16_at(d, pos + 8)
            &&& p.ptime == be16_at(d, pos + 10)
            &&& p.wtime == d[pos + 12]
            &&& p.atime == d[pos + 13]
            &&& p.items@ == Seq::new(d[pos + 1] as nat, |i: int| be16_at(d, pos + 14 + 2 * i))
        },
        PsdDescriptor::SelectionList(s) => {
            &&& (d[pos] == 0x18 || d[pos] == 0x1A)
            &&& s.descriptor_tag == d[pos]
            &&& s.byte_offset == pos
            &&& s.unit_offset == unit
            &&& s.flags == d[pos + 1]
            &&& s.nos == d[pos + 2]
            &&& s.bsn == d[pos + 3]
            &&& s.lid == be16_at(d, pos + 4)
            &&& s.prev_ofs == be16_at(d, pos + 6)
            &&& s.next_ofs == be16_at(d, pos + 8)
            &&& s.return_ofs == be16_at(d, pos + 10)
            &&& s.default_ofs == be16_at(d, pos + 12)
            &&& s.timeout_ofs == be16_at(d, pos + 14)
            &&& s.timeout_time == d[pos + 16]
            &&& s.loop_count == d[pos + 17]
            &&& s.item_id == be16_at(d, pos + 18)
            &&& s.selections@ == Seq::new(d[pos + 2] as nat, |i: int| be16_at(d, pos + 20 + 2 * i))
            &&& s.ext_area_data@ == (if d[pos] == 0x1A {
                d.subrange(pos + 20 + 2 * d[pos + 2], pos + 36 + 6 * d[pos + 2])
            } else {
                Seq::empty()
            })
        },
        PsdDescriptor::EndList(e) => {
            &&& d[pos] == 0x1F
            &&& e.byte_offset == pos
            &&& e.unit_offset == unit
            &&& e.next_disc == d[pos + 1]
            &&& e.change_pic == be16_at(d, pos + 2)
        },
    }
}

/// The map from unit offset to the index of the last descriptor with that unit offset.
pub open spec fn unit_index(descs: Seq<PsdDescriptor>) -> Map<u16, usize>
    decreases descs.len(),
{
    if descs.len() == 0 {
        Map::empty()
    } else {
        unit_index(descs.drop_last()).insert(
            desc_unit(descs.last()),
            (descs.len() - 1) as usize,
        )
    }
}

/// The map from byte offset to the index of the descriptor there.
pub open spec fn byte_index(descs: Seq<PsdDescriptor>) -> Map<usize, usize>
    decreases descs.len(),
{
    if descs.len() == 0 {
        Map::empty()
    } else {
        byte_index(descs.drop_last()).insert(
            desc_byte(descs.last()),
            (descs.len() - 1) as usize,
        )
    }
}

/// The byte offset of a descriptor.
pub open spec fn desc_byte(d: PsdDescriptor) -> usize {
    match d {
        PsdDescriptor::PlayList(p) => p.byte_offset,
        PsdDescriptor::SelectionList(s) => s.byte_offset,
        PsdDescriptor::EndList(e) => e.byte_offset,
    }
}

/// The unit offset of a descriptor.
pub open spec fn desc_unit(d: PsdDescriptor) -> u16 {
    match d {
        PsdDescriptor::PlayList(p) => p.unit_offset,
        PsdDescriptor::SelectionList(s) => s.unit_offset,
        PsdDescriptor::EndList(e) => e.unit_offset,
    }
}

/// The link a descriptor holds (0xFFFF for an EndList): 0 prev, 1 next, 2 return.
pub open spec fn desc_link(d: PsdDescriptor, which: int) -> u16 {
    match d {
        PsdDescriptor::PlayList(p) => if which == 0 {
            p.prev_ofs
        } else if which == 1 {
            p.next_ofs
        } else {
            p.return_ofs
        },
        PsdDescriptor::SelectionList(s) => if which == 0 {
            s.prev_ofs
        } else if which == 1 {
            s.next_ofs
        } else {
            s.return_ofs
        },
        PsdDescriptor::EndList(_) => 0xFFFF,
    }
}

impl PsdDescriptor {
    pub fn byte_offset(&self) -> (r: usize)
        ensures
            r == desc_byte(*self),
    {
        match self {
            PsdDescriptor::PlayList(p) => p.byte_offset,
            PsdDescriptor::SelectionList(s) => s.byte_offset,
            PsdDescriptor::EndList(e) => e.byte_offset,
        }
    }

    pub fn unit_offset(&self) -> (r: u16)
        ensures
            r == desc_unit(*self),
    {
        match self {
            PsdDescriptor::PlayList(p) => p.unit_offset,
            PsdDescriptor::SelectionList(s) => s.unit_offset,
            PsdDescriptor::EndList(e) => e.unit_offset,
        }
    }

    /// The List ID; an EndList has none.
    pub fn lid(&self) -> (r: Option<u16>)
        ensures
            r == (match *self {
                PsdDescriptor::PlayList(p) => Some(p.lid),
                PsdDescriptor::SelectionList(s) => Some(s.lid),
                PsdDescriptor::EndList(_) => None,
            }),
    {
        match self {
            PsdDescriptor::PlayList(p) => Some(p.lid),
            PsdDescriptor::SelectionList(s) => Some(s.lid),
            PsdDescriptor::EndList(_) => None,
        }
    }

    pub fn prev_ofs(&self) -> (r: u16)
        ensures
            r == desc_link(*self, 0),
    {
        match self {
            PsdDescriptor::PlayList(p) => p.prev_ofs,
            PsdDescriptor::SelectionList(s) => s.prev_ofs,
            PsdDescriptor::EndList(_) => 0xFFFF,
        }
    }

    pub fn next_ofs(&self) -> (r: u16)
        ensures
            r == desc_link(*self, 1),
    {
        match self {
            PsdDescriptor::PlayList(p) => p.next_ofs,
            PsdDescriptor::SelectionList(s) => s.next_ofs,
            PsdDescriptor::EndList(_) => 0xFFFF,
        }
    }

    pub fn return_ofs(&self) -> (r: u16)
        ensures
            r == desc_link(*self, 2),
    {
        match self {
            PsdDescriptor::PlayList(p) => p.return_ofs,
            PsdDescriptor::SelectionList(s) => s.return_ofs,
            PsdDescriptor::EndList(_) => 0xFFFF,
        }
    }
}

/// The parsed table.
#[derive(Debug)]
pub struct PsdTable {
    pub descriptors: Vec<PsdDescriptor>,
    /// byte offset -> index in `descriptors`
    pub offset_map: HashMap<usize, usize>,
    /// unit offset -> index in `descriptors`
    pub unit_map: HashMap<u16, usize>,
    pub offset_mult: usize,
}

impl PsdTable {
    /// The lookup maps agree with the descriptor list and the multiplier is not 0.
    pub open spec fn wf(&self) -> bool {
        &&& self.offset_map@ == byte_index(self.descriptors@)
        &&& self.unit_map@ == unit_index(self.descriptors@)
        &&& self.offset_mult > 0
    }

    /// The table is what `parse` yields for `d` and `mult`.
    pub open spec fn parsed_from(&self, d: Seq<u8>, mult: usize) -> bool {
        let starts = desc_starts(d);
        &&& self.wf()
        &&& self.offset_mult == effective_mult(mult)
        &&& self.descriptors@.len() == starts.len()
        &&& forall|i: int|
            0 <= i < starts.len() ==> parsed_at(
                #[trigger] self.descriptors@[i],
                d,
                starts[i],
                self.offset_mult,
            )
    }

    /// The descriptor whose unit offset is `u`, if any (the last such one).
    pub open spec fn spec_by_unit(&self, u: u16) -> Option<PsdDescriptor> {
        if u != 0xFFFF && self.unit_map@.contains_key(u) {
            Some(self.descriptors@[self.unit_map@[u] as int])
        } else {
            None
        }
    }

    /// The descriptor at byte offset `b`, if any.
    pub open spec fn spec_by_byte(&self, b: usize) -> Option<PsdDescriptor> {
        if self.offset_map@.contains_key(b) {
            Some(self.descriptors@[self.offset_map@[b] as int])
        } else {
            None
        }
    }
}

pub proof fn lemma_index_bounds(descs: Seq<PsdDescriptor>)
    ensures
        forall|k: u16| #[trigger]
            unit_index(descs).contains_key(k) ==> unit_index(descs)[k] < descs.len(),
        forall|k: usize| #[trigger]
            byte_index(descs).contains_key(k) ==> byte_index(descs)[k] < descs.len(),
    decreases descs.len(),
{
    if descs.len() > 0 {
        lemma_index_bounds(descs.drop_last());
        let pre = descs.drop_last();
        assert forall|k: u16| #[trigger] unit_index(descs).contains_key(k) implies unit_index(
            descs,
        )[k] < descs.len() by {
            if k != desc_unit(descs.last()) {
                assert(unit_index(pre).contains_key(k));
            }
        }
        assert forall|k: usize| #[trigger] byte_index(descs).contains_key(k) implies byte_index(
            descs,
        )[k] < descs.len() by {
            if k != desc_byte(descs.last()) {
                assert(byte_index(pre).contains_key(k));
            }
        }
    }
}

/// Scans `data` from `pos`, which must hold a descriptor start; returns the
/// descriptor and the scan advance.
fn parse_desc_at(data: &[u8], pos: usize, mult: usize) -> (r: (PsdDescriptor, usize))
    requires
        0 <= pos < data@.len(),
        mult > 0,
        scan_at(data@, pos as int) matches Scan::Take(_, _),
    ensures
        scan_at(data@, pos as int) matches Scan::Take(_, adv) && r.1 == adv,
        parsed_at(r.0, data@, pos as int, mult),
{
    let dlen = data.len();
    let t = data[pos];
    let unit = (pos / mult) as u16;
    if t == 0x10 {
        let noi = data[pos + 1] as usize;
        let len = 14 + noi * 2;
        let mut items: Vec<u16> = Vec::new();
        let mut i: usize = 0;
        while i < noi
            invariant
                noi == data@[pos as int + 1],
                dlen == data@.len(),
                pos + 14 + noi * 2 <= data@.len(),
                i <= noi,
                items@ =~= Seq::new(i as nat, |k: int| be16_at(data@, pos + 14 + 2 * k)),
            decreases noi - i,
        {
            items.push(read_be16(data, pos + 14 + i * 2));
            i += 1;
        }
        let p = PlayListDesc {
            byte_offset: pos,
            unit_offset: unit,
            noi: noi as u8,
            lid: read_be16(data, pos + 2),
            prev_ofs: read_be16(data, pos + 4),
            next_ofs: read_be16(data, pos + 6),
            return_ofs: read_be16(data, pos + 8),
            ptime: read_be16(data, pos + 10),
            wtime: data[pos + 12],
            atime: data[pos + 13],
            items,
        };
        (PsdDescriptor::PlayList(p), len)
    } else if t == 0x18 || t == 0x1A {
        let nos = data[pos + 2] as usize;
        let len = if t == 0x1A {
            36 + nos * 6
        } else {
            20 + nos * 2
        };
        let mut sels: Vec<u16> = Vec::new();
        let mut i: usize = 0;
        while i < nos
            invariant
                nos == data@[pos as int + 2],
                dlen == data@.len(),
                pos + len <= data@.len(),
                len >= 20 + nos * 2,
                i <= nos,
                sels@ =~= Seq::new(i as nat, |k: int| be16_at(data@, pos + 20 + 2 * k)),
            decreases nos - i,
        {
            sels.push(read_be16(data, pos + 20 + i * 2));
            i += 1;
        }
        let ext_area_data = if t == 0x1A {
            copy_bytes(data, pos + 20 + nos * 2, pos + len)
        } else {
            Vec::new()
        };
        let s = SelectionListDesc {
            descriptor_tag: t,
            byte_offset: pos,
            unit_offset: unit,
            flags: data[pos + 1],
            nos: nos as u8,
            bsn: data[pos + 3],
            lid: read_be16(data, pos + 4),
            prev_ofs: read_be16(data, pos + 6),
            next_ofs: read_be16(data, pos + 8),
            return_ofs: read_be16(data, pos + 10),
            default_ofs: read_be16(data, pos + 12),
            timeout_ofs: read_be16(data, pos + 14),
            timeout_time: data[pos + 16],
            loop_count: data[pos + 17],
            item_id: read_be16(data, pos + 18),
            selections: sels,
            ext_area_data,
        };
        (PsdDescriptor::SelectionList(s), len)
    } else {
        let e = EndListDesc {
            byte_offset: pos,
            unit_offset: unit,
            next_disc: data[pos + 1],
            change_pic: read_be16(data, pos + 2),
        };
        (PsdDescriptor::EndList(e), 8)
    }
}

/// The scan decision at `pos`, computed.
fn scan_here(data: &[u8], pos: usize) -> (r: u8)
    requires
        pos < data@.len(),
    ensures
        r == 0 <==> scan_at(data@, pos as int) is Skip,
        r == 1 <==> scan_at(data@, pos as int) is Take,
        r == 2 <==> scan_at(data@, pos as int) is Stop,
{
    let n = data.len();
    let t = data[pos];
    if t == 0x10 {
        if n - pos < 14 {
            2
        } else if n - pos - 14 < data[pos + 1] as usize * 2 {
            2
        } else {
            1
        }
    } else if t == 0x18 {
        if n - pos < 20 {
            2
        } else if n - pos - 20 < data[pos + 2] as usize * 2 {
            2
        } else {
            1
        }
    } else if t == 0x1A {
        if n - pos < 36 {
            2
        } else if n - pos - 36 < data[pos + 2] as usize * 6 {
            2
        } else {
            1
        }
    } else if t == 0x1F {
        if n - pos < 4 {
            2
        } else {
            1
        }
    } else {
        0
    }
}

impl PsdTable {
    /// Parses a PSD image with the given offset multiplier (8 when 0).
    pub fn parse(data: &[u8], offset_mult: usize) -> (r: Result<Self, String>)
        ensures
            r matches Ok(t) && t.parsed_from(data@, offset_mult),
    {
        let mult = if offset_mult == 0 {
            8
        } else {
            offset_mult
        };
        let mut descriptors: Vec<PsdDescriptor> = Vec::new();
        let mut offset_map: HashMap<usize, usize> = HashMap::new();
        let mut unit_map: HashMap<u16, usize> = HashMap::new();
        let ghost mut found: Seq<int> = seq![];
        let mut pos: usize = 0;
        let n = data.len();
        while pos < n
            invariant_except_break
                pos <= n,
                desc_starts(data@) == found + starts_from(data@, pos as int),
            invariant
                n == data@.len(),
                mult == effective_mult(offset_mult),
                mult > 0,
                descriptors@.len() == found.len(),
                forall|i: int|
                    0 <= i < found.len() ==> parsed_at(
                        #[trigger] descriptors@[i],
                        data@,
                        found[i],
                        mult,
                    ),
                offset_map@ == byte_index(descriptors@),
                unit_map@ == unit_index(descriptors@),
            ensures
                desc_starts(data@) == found,
            decreases n - pos,
        {
            let k = scan_here(data, pos);
            if k == 0 {
                pos += 1;
            } else if k == 2 {
                proof {
                    assert(starts_from(data@, pos as int) == Seq::<int>::empty());
                    assert(found + Seq::<int>::empty() =~= found);
                }
                break;
            } else {
                let (desc, adv) = parse_desc_at(data, pos, mult);
                let idx = descriptors.len();
                let ghost old_descs = descriptors@;
                offset_map.insert(pos, idx);
                unit_map.insert(desc.unit_offset(), idx);
                descriptors.push(desc);
                proof {
                    assert(descriptors@.drop_last() =~= old_descs);
                    let ghost prev_found = found;
                    found = found.push(pos as int);
                    if pos + adv < n {
                        assert(starts_from(data@, pos as int) == seq![pos as int] + starts_from(
                            data@,
                            pos + adv,
                        ));
                        assert(desc_starts(data@) =~= found + starts_from(data@, pos + adv));
                    } else {
                        assert(starts_from(data@, pos as int) == seq![pos as int]);
                        assert(desc_starts(data@) =~= found);
                    }
                    assert forall|i: int| 0 <= i < found.len() implies parsed_at(
                        #[trigger] descriptors@[i],
                        data@,
                        found[i],
                        mult,
                    ) by {
                        if i < found.len() - 1 {
                            assert(descriptors@[i] == old_descs[i]);
                        }
                    }
                }
                if adv >= n - pos {
                    proof {
                        assert(desc_starts(data@) =~= found);
                    }
                    break;
                }
                pos += adv;
            }
        }
        proof {
            lemma_index_bounds(descriptors@);
        }
        Ok(PsdTable { descriptors, offset_map, unit_map, offset_mult: mult })
    }
}


/// Every byte offset in the index maps to a descriptor at that offset.
pub proof fn lemma_byte_index_sound(descs: Seq<PsdDescriptor>)
    requires
        descs.len() <= usize::MAX,
    ensures
        forall|b: usize| #[trigger]
            byte_index(descs).contains_key(b) ==> byte_index(descs)[b] < descs.len() && desc_byte(
                descs[byte_index(descs)[b] as int],
            ) == b,
    decreases descs.len(),
{
    if descs.len() > 0 {
        let pre = descs.drop_last();
        lemma_byte_index_sound(pre);
        assert forall|b: usize| #[trigger] byte_index(descs).contains_key(b) implies byte_index(
            descs,
        )[b] < descs.len() && desc_byte(descs[byte_index(descs)[b] as int]) == b by {
            if b != desc_byte(descs.last()) {
                assert(byte_index(pre).contains_key(b));
                assert(descs[byte_index(pre)[b] as int] == pre[byte_index(pre)[b] as int]);
            }
        }
    }
}

/// Index of the first SelectionList at or after `i`.
pub open spec fn first_sel_from(descs: Seq<PsdDescriptor>, i: int) -> Option<int>
    decreases descs.len() - i,
{
    if i < 0 || i >= descs.len() {
        None
    } else if descs[i] is SelectionList {
        Some(i)
    } else {
        first_sel_from(descs, i + 1)
    }
}

impl PsdTable {
    /// Looks a descriptor up by unit offset (`0xFFFF` never matches).
    pub fn get_by_unit_offset(&self, unit_ofs: u16) -> (r: Option<&PsdDescriptor>)
        requires
            self.wf(),
        ensures
            match r {
                Some(d) => self.spec_by_unit(unit_ofs) == Some(*d),
                None => self.spec_by_unit(unit_ofs) is None,
            },
    {
        if unit_ofs == 0xFFFF {
            return None;
        }
        proof {
            lemma_index_bounds(self.descriptors@);
        }
        match self.unit_map.get(&unit_ofs) {
            Some(idx) => Some(&self.descriptors[*idx]),
            None => None,
        }
    }

    /// Looks a descriptor up by byte offset.
    pub fn get_by_byte_offset(&self, byte_ofs: usize) -> (r: Option<&PsdDescriptor>)
        requires
            self.wf(),
        ensures
            match r {
                Some(d) => self.spec_by_byte(byte_ofs) == Some(*d),
                None => self.spec_by_byte(byte_ofs) is None,
            },
    {
        proof {
            lemma_index_bounds(self.descriptors@);
        }
        match self.offset_map.get(&byte_ofs) {
            Some(idx) => Some(&self.descriptors[*idx]),
            None => None,
        }
    }

    /// Looks a descriptor up by List ID through the LOT.
    pub fn get_by_lid<'a>(&'a self, lid: u16, lot: &LotTable) -> (r: Option<&'a PsdDescriptor>)
        requires
            self.wf(),
        ensures
            match lot_unit(lot.entries(), lid) {
                Some(u) => match r {
                    Some(d) => self.spec_by_unit(u) == Some(*d),
                    None => self.spec_by_unit(u) is None,
                },
                None => r is None,
            },
    {
        match lot.get_unit_offset(lid) {
            Some(u) => self.get_by_unit_offset(u),
            None => None,
        }
    }

    /// The first SelectionList of the table (the disc's root menu).
    pub fn first_selection_list(&self) -> (r: Option<&SelectionListDesc>)
        ensures
            match first_sel_from(self.descriptors@, 0) {
                Some(i) => r matches Some(s) && self.descriptors@[i] == PsdDescriptor::SelectionList(
                    *s,
                ),
                None => r is None,
            },
    {
        let mut i: usize = 0;
        while i < self.descriptors.len()
            invariant
                i <= self.descriptors@.len(),
                first_sel_from(self.descriptors@, 0) == first_sel_from(self.descriptors@, i as int),
            decreases self.descriptors@.len() - i,
        {
            if let PsdDescriptor::SelectionList(sel) = &self.descriptors[i] {
                return Some(sel);
            }
            i += 1;
        }
        None
    }
}

impl SelectionListDesc {
    /// Whether this is an extended list (type byte 0x1A).
    pub fn is_extended(&self) -> (r: bool)
        ensures
            r == (self.descriptor_tag == 0x1A),
    {
        self.descriptor_tag == 0x1A
    }
}

/// Whether `d` is an extended SelectionList.
pub open spec fn is_extended_sel(d: PsdDescriptor) -> bool {
    match d {
        PsdDescriptor::SelectionList(s) => s.descriptor_tag == 0x1A,
        _ => false,
    }
}

/// Whether some descriptor of `descs` is an extended SelectionList.
pub open spec fn has_extended(descs: Seq<PsdDescriptor>) -> bool {
    exists|i: int| 0 <= i < descs.len() && is_extended_sel(#[trigger] descs[i])
}

impl PsdTable {
    /// Whether the table holds an extended SelectionList.
    pub fn has_extended_descriptors(&self) -> (r: bool)
        ensures
            r == has_extended(self.descriptors@),
    {
        let mut i: usize = 0;
        while i < self.descriptors.len()
            invariant
                i <= self.descriptors@.len(),
                forall|k: int| 0 <= k < i ==> !is_extended_sel(#[trigger] self.descriptors@[k]),
            decreases self.descriptors@.len() - i,
        {
            if let PsdDescriptor::SelectionList(sel) = &self.descriptors[i] {
                if sel.descriptor_tag == 0x1A {
                    return true;
                }
            }
            i += 1;
        }
        false
    }
}

/// A unit offset is in the unit map exactly when some descriptor has it, and
/// then the map names the last such descriptor: lookups by unit offset give
/// the last descriptor found at that offset.
pub proof fn lemma_unit_index_last(descs: Seq<PsdDescriptor>, u: u16)
    requires
        descs.len() <= usize::MAX,
    ensures
        unit_index(descs).contains_key(u) <==> exists|i: int| 0 <= i < descs.len() && desc_unit(#[trigger] descs[i]) == u,
        unit_index(descs).contains_key(u) ==> {
            let k = unit_index(descs)[u] as int;
            &&& 0 <= k < descs.len()
            &&& desc_unit(descs[k]) == u
            &&& forall|j: int| k < j < descs.len() ==> desc_unit(#[trigger] descs[j]) != u
        },
    decreases descs.len(),
{
    if descs.len() > 0 {
        let pre = descs.drop_last();
        lemma_unit_index_last(pre, u);
        if desc_unit(descs.last()) != u {
            assert forall|i: int| 0 <= i < pre.len() && desc_unit(#[trigger] pre[i]) == u implies exists|i2: int|
                0 <= i2 < descs.len() && desc_unit(#[trigger] descs[i2]) == u by {
                assert(descs[i] == pre[i]);
            }
            assert forall|i: int| 0 <= i < descs.len() && desc_unit(#[trigger] descs[i]) == u implies exists|i2: int|
                0 <= i2 < pre.len() && desc_unit(#[trigger] pre[i2]) == u by {
                assert(i < descs.len() - 1);
                assert(pre[i] == descs[i]);
            }
            if unit_index(descs).contains_key(u) {
                assert(unit_index(pre).contains_key(u));
                let k = unit_index(pre)[u] as int;
                assert(unit_index(descs)[u] == unit_index(pre)[u]);
                assert(descs[k] == pre[k]);
                assert forall|j: int| k < j < descs.len() implies desc_unit(#[trigger] descs[j]) != u by {
                    if j < descs.len() - 1 {
                        assert(descs[j] == pre[j]);
                    }
                }
            }
        } else {
            assert(desc_unit(descs[descs.len() - 1]) == u);
            assert(unit_index(descs)[u] == (descs.len() - 1) as usize);
        }
    }
}

} // verus!
