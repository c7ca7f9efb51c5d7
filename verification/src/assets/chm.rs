//! VCD 3.0 compiled HTML pages (`<COMPHTML>`, `.CHM`).
//!
//! Layout: magic `<COMPHTML>` padded to 12 bytes; a 208-byte header (title at
//! 0x20, author at 0x60, then big-endian width, height, background colour
//! index and palette size at 0x80..0x90); `min(palette size, 256)` YUV palette
//! entries from byte 220; then chunks, each a 12-byte header (type, size,
//! flags) and `size` data bytes, up to the end tag `</COMPHTML>`.

use crate::assets::ybm::{holds_at, palette_ok, decode_palette, RgbColor, bytes_at};
use crate::bytes::{be32_at, nt, nt_len, read_be32, read_be_i32, nt_end};
use crate::text::{
    clean_name, clean_string, copy_bytes, ends_ci, lossy_nt, lossy_string, parse_u32,
    range_parse_u32, str_ends_ci, utf8_lossy, chars_of, char_count,
};
use vstd::prelude::*;

verus! {

broadcast use vstd::string::group_string_axioms;

pub const CHUNK_TYPE_TITLE: u32 = 0;

pub const CHUNK_TYPE_BODY_STYLE: u32 = 1;

pub const CHUNK_TYPE_IMG: u32 = 3;

pub const CHUNK_TYPE_MAP: u32 = 11;

pub const CHUNK_TYPE_HREF: u32 = 13;

pub const CHUNK_TYPE_VARIABLE_TEXT: u32 = 14;

pub const CHUNK_TYPE_BGSOUND: u32 = 15;

pub const CHUNK_TYPE_VCDSCRIPT: u32 = 16;

/// Why a page could not be parsed.
#[derive(Debug, Clone, PartialEq, Eq)]
pub enum ChmError {
    DataTooSmall(usize),
    InvalidMagic,
    InvalidHeader,
    InvalidDimensions(u32, u32),
    CorruptedChunk(String),
}

impl ChmError {
    /// The text of the error.
    pub fn message(&self) -> (r: String)
        ensures
            r@ == (match *self {
                ChmError::DataTooSmall(n) => "Data too small for CHM: "@ + crate::text::dec_digits(
                    n as nat,
                ) + " bytes"@,
                ChmError::InvalidMagic => "Invalid CHM magic header (expected <COMPHTML>)"@,
                ChmError::InvalidHeader => "Invalid CHM metadata header"@,
                ChmError::InvalidDimensions(w, h) => "Invalid CHM dimensions: "@
                    + crate::text::dec_digits(w as nat) + "x"@ + crate::text::dec_digits(h as nat),
                ChmError::CorruptedChunk(m) => "Corrupted chunk: "@ + m@,
            }),
    {
        let mut s = String::new();
        match self {
            ChmError::DataTooSmall(n) => {
                crate::text::push_str(&mut s, "Data too small for CHM: ");
                crate::text::push_dec(&mut s, *n as u64);
                crate::text::push_str(&mut s, " bytes");
            },
            ChmError::InvalidMagic => {
                crate::text::push_str(&mut s, "Invalid CHM magic header (expected <COMPHTML>)");
            },
            ChmError::InvalidHeader => {
                crate::text::push_str(&mut s, "Invalid CHM metadata header");
            },
            ChmError::InvalidDimensions(w, h) => {
                crate::text::push_str(&mut s, "Invalid CHM dimensions: ");
                crate::text::push_dec(&mut s, *w as u64);
                crate::text::push_str(&mut s, "x");
                crate::text::push_dec(&mut s, *h as u64);
            },
            ChmError::CorruptedChunk(m) => {
                crate::text::push_str(&mut s, "Corrupted chunk: ");
                crate::text::push_str(&mut s, m.as_str());
            },
        }
        s
    }
}

/// One assignment run when a hotspot is activated: `target = op1 <opcode> op2`.
#[derive(Debug, Clone, PartialEq, Eq)]
pub struct MicroScriptOp {
    pub target_var: String,
    pub op1: String,
    pub opcode: u32,
    pub op2: String,
}

/// A clickable area of a page.
#[derive(Debug, Clone, PartialEq, Eq)]
pub struct MapArea {
    pub area_id: u32,
    pub x1: i32,
    pub y1: i32,
    pub x2: i32,
    pub y2: i32,
    pub target: String,
    pub script_entry_line: Option<u32>,
    pub is_overlay: bool,
    pub micro_scripts: Vec<MicroScriptOp>,
}

/// A placed image.
#[derive(Debug, Clone, PartialEq, Eq)]
pub struct ImageElement {
    pub x: i32,
    pub y: i32,
    pub width: u32,
    pub height: u32,
    pub usemap: Option<String>,
    pub filename: String,
}

/// The content of one chunk.
#[derive(Debug, Clone, PartialEq, Eq)]
pub enum ChunkPayload {
    Title(String),
    BodyStyle { font_name: String, source_path: String },
    Image(ImageElement),
    MapHotspots { map_name: String, areas: Vec<MapArea> },
    BgSound { filename: String, loop_count: u32 },
    Href { target: String, area: MapArea },
    VariableText { x: i32, y: i32, var_name: String },
    VcdScript(String),
    Raw { chunk_type: u32, flags: u32, data: Vec<u8> },
}

/// A parsed page.
#[derive(Debug, Clone)]
pub struct CompHtmlDoc {
    pub title: String,
    pub author: String,
    pub width: u32,
    pub height: u32,
    pub bg_color_idx: u32,
    pub palette_count: u32,
    pub palette: Vec<RgbColor>,
    pub chunks: Vec<ChunkPayload>,
}

// ---------------------------------------------------------------------------
// Abstract values
// ---------------------------------------------------------------------------

pub struct MicroOpView {
    pub target_var: Seq<char>,
    pub op1: Seq<char>,
    pub opcode: u32,
    pub op2: Seq<char>,
}

pub struct AreaView {
    pub area_id: u32,
    pub x1: i32,
    pub y1: i32,
    pub x2: i32,
    pub y2: i32,
    pub target: Seq<char>,
    pub script_entry_line: Option<u32>,
    pub is_overlay: bool,
    pub micro_scripts: Seq<MicroOpView>,
}

pub struct ImageView {
    pub x: i32,
    pub y: i32,
    pub width: u32,
    pub height: u32,
    pub usemap: Option<Seq<char>>,
    pub filename: Seq<char>,
}

pub enum ChunkView {
    Title(Seq<char>),
    BodyStyle(Seq<char>, Seq<char>),
    Image(ImageView),
    MapHotspots(Seq<char>, Seq<AreaView>),
    BgSound(Seq<char>, u32),
    Href(Seq<char>, AreaView),
    VariableText(i32, i32, Seq<char>),
    VcdScript(Seq<char>),
    Raw(u32, u32, Seq<u8>),
}

impl View for MicroScriptOp {
    type V = MicroOpView;

    open spec fn view(&self) -> MicroOpView {
        MicroOpView { target_var: self.target_var@, op1: self.op1@, opcode: self.opcode, op2: self.op2@ }
    }
}

impl View for MapArea {
    type V = AreaView;

    open spec fn view(&self) -> AreaView {
        AreaView {
            area_id: self.area_id,
            x1: self.x1,
            y1: self.y1,
            x2: self.x2,
            y2: self.y2,
            target: self.target@,
            script_entry_line: self.script_entry_line,
            is_overlay: self.is_overlay,
            micro_scripts: self.micro_scripts@.map_values(|m: MicroScriptOp| m@),
        }
    }
}

impl View for ImageElement {
    type V = ImageView;

    open spec fn view(&self) -> ImageView {
        ImageView {
            x: self.x,
            y: self.y,
            width: self.width,
            height: self.height,
            usemap: match self.usemap {
                Some(u) => Some(u@),
                None => None,
            },
            filename: self.filename@,
        }
    }
}

impl View for ChunkPayload {
    type V = ChunkView;

    open spec fn view(&self) -> ChunkView {
        match self {
            ChunkPayload::Title(t) => ChunkView::Title(t@),
            ChunkPayload::BodyStyle { font_name, source_path } => ChunkView::BodyStyle(
                font_name@,
                source_path@,
            ),
            ChunkPayload::Image(i) => ChunkView::Image(i@),
            ChunkPayload::MapHotspots { map_name, areas } => ChunkView::MapHotspots(
                map_name@,
                areas@.map_values(|a: MapArea| a@),
            ),
            ChunkPayload::BgSound { filename, loop_count } => ChunkView::BgSound(filename@, *loop_count),
            ChunkPayload::Href { target, area } => ChunkView::Href(target@, area@),
            ChunkPayload::VariableText { x, y, var_name } => ChunkView::VariableText(*x, *y, var_name@),
            ChunkPayload::VcdScript(s) => ChunkView::VcdScript(s@),
            ChunkPayload::Raw { chunk_type, flags, data } => ChunkView::Raw(*chunk_type, *flags, data@),
        }
    }
}

// ---------------------------------------------------------------------------
// Chunk specifications
// ---------------------------------------------------------------------------

/// The text of the NUL-terminated prefix of `s`.
pub open spec fn text_nt(s: Seq<u8>) -> Seq<char> {
    utf8_lossy(nt(s))
}

/// Upper-casing of an ASCII byte.
pub open spec fn up8(b: u8) -> u8 {
    if 97 <= b <= 122 {
        (b - 32) as u8
    } else {
        b
    }
}

/// `c[i..i+4]` equals `.YBM` or `.BMP`, ignoring ASCII case.
pub open spec fn image_ext_at(c: Seq<u8>, i: int) -> bool {
    &&& 0 <= i && i + 4 <= c.len()
    &&& c[i] == 0x2e
    &&& ((up8(c[i + 1]) == 0x59 && up8(c[i + 2]) == 0x42 && up8(c[i + 3]) == 0x4d) || (up8(c[i + 1])
        == 0x42 && up8(c[i + 2]) == 0x4d && up8(c[i + 3]) == 0x50))
}

/// The last index below `j` where an image extension starts.
pub open spec fn last_ext_below(c: Seq<u8>, j: int) -> Option<int>
    decreases j,
{
    if j <= 0 {
        None
    } else if image_ext_at(c, j - 1) {
        Some(j - 1)
    } else {
        last_ext_below(c, j - 1)
    }
}

/// A byte that can be part of a file name found by the fallback search.
pub open spec fn name_byte(b: u8) -> bool {
    32 <= b < 127 && b != 0x22
}

/// Where a file name ending just before `s` begins.
pub open spec fn name_start(c: Seq<u8>, s: int) -> int
    decreases s,
{
    if s > 0 && s <= c.len() && name_byte(c[s - 1]) {
        name_start(c, s - 1)
    } else {
        s
    }
}

/// The file name an IMG chunk records at 0x60, when it names a `.YBM` or `.BMP` file.
pub open spec fn img_primary(c: Seq<u8>) -> Option<Seq<char>> {
    if c.len() >= 0x64 {
        let fl = be32_at(c, 0x60) as int;
        if 0 < fl < 64 && 0x64 + fl <= c.len() {
            let s = text_nt(c.subrange(0x64, 0x64 + fl));
            if ends_ci(s, ".YBM"@) || ends_ci(s, ".BMP"@) {
                Some(s)
            } else {
                None
            }
        } else {
            None
        }
    } else {
        None
    }
}

/// The file name of an IMG chunk: the recorded one, else the last `.YBM`/`.BMP`
/// name in the data, else empty.
pub open spec fn img_filename(c: Seq<u8>) -> Seq<char> {
    match img_primary(c) {
        Some(s) => s,
        None => match last_ext_below(c, c.len() - 3) {
            Some(i) => utf8_lossy(c.subrange(name_start(c, i), i + 4)),
            None => seq![],
        },
    }
}

/// The view of an IMG chunk of at least 0x20 bytes.
pub open spec fn img_view(c: Seq<u8>) -> ImageView {
    let um = text_nt(c.subrange(0x1c, c.len() as int));
    ImageView {
        x: be32_at(c, 0) as i32,
        y: be32_at(c, 4) as i32,
        width: be32_at(c, 8),
        height: be32_at(c, 12),
        usemap: if um.len() > 0 { Some(um) } else { None },
        filename: img_filename(c),
    }
}

/// Micro-script item `i` of a MAP chunk.
pub open spec fn op_at(c: Seq<u8>, i: int) -> MicroOpView {
    let s = 0x78 + i * 0x1c;
    MicroOpView {
        target_var: text_nt(c.subrange(s, s + 4)),
        op1: text_nt(c.subrange(s + 8, s + 12)),
        opcode: be32_at(c, s + 0x10),
        op2: text_nt(c.subrange(s + 0x14, s + 0x1c)),
    }
}

/// The micro-script items among the first `k`, keeping those with a target.
pub open spec fn micro_upto(c: Seq<u8>, k: int) -> Seq<MicroOpView>
    decreases k,
{
    if k <= 0 {
        seq![]
    } else {
        let prev = micro_upto(c, k - 1);
        let op = op_at(c, k - 1);
        if op.target_var.len() > 0 {
            prev.push(op)
        } else {
            prev
        }
    }
}

/// The number of micro-script items stored whole in a MAP chunk.
pub open spec fn micro_count(c: Seq<u8>) -> int {
    if c.len() >= 0x78 {
        let declared = be32_at(c, 0x74) as int;
        let room = (c.len() - 0x78) / 0x1c;
        if declared < room {
            declared
        } else {
            room
        }
    } else {
        0
    }
}

/// The number of points a MAP chunk's area uses (its count clamped to 2..=32).
pub open spec fn num_pts(c: Seq<u8>) -> int {
    let n = be32_at(c, 0x124) as int;
    if n < 2 {
        2
    } else if n > 32 {
        32
    } else {
        n
    }
}

/// The number of those points that lie inside the chunk.
pub open spec fn pts_present(c: Seq<u8>) -> int {
    let room = (c.len() - 0x12c) / 8;
    if num_pts(c) < room {
        num_pts(c)
    } else {
        room
    }
}

pub open spec fn pt_x(c: Seq<u8>, i: int) -> i32 {
    be32_at(c, 0x12c + 8 * i) as i32
}

pub open spec fn pt_y(c: Seq<u8>, i: int) -> i32 {
    be32_at(c, 0x12c + 8 * i + 4) as i32
}

pub open spec fn min32(a: i32, b: i32) -> i32 {
    if a <= b {
        a
    } else {
        b
    }
}

pub open spec fn max32(a: i32, b: i32) -> i32 {
    if a >= b {
        a
    } else {
        b
    }
}

/// Folds of the first `k` points: (min x, min y, max x, max y).
pub open spec fn bbox_upto(c: Seq<u8>, k: int) -> (i32, i32, i32, i32)
    decreases k,
{
    if k <= 0 {
        (i32::MAX, i32::MAX, i32::MIN, i32::MIN)
    } else {
        let b = bbox_upto(c, k - 1);
        (
            min32(b.0, pt_x(c, k - 1)),
            min32(b.1, pt_y(c, k - 1)),
            max32(b.2, pt_x(c, k - 1)),
            max32(b.3, pt_y(c, k - 1)),
        )
    }
}

/// The bounding box of an area: the points' box, or zeros when the smallest x is `i32::MAX`.
pub open spec fn area_box(c: Seq<u8>) -> (i32, i32, i32, i32) {
    let b = bbox_upto(c, pts_present(c));
    if b.0 == i32::MAX {
        (0, 0, 0, 0)
    } else {
        b
    }
}

/// The target text of a MAP chunk's area.
pub open spec fn area_target(c: Seq<u8>) -> Seq<char> {
    let off = 0x12c + num_pts(c) * 8;
    if off < c.len() {
        clean_name(text_nt(c.subrange(off, c.len() as int)))
    } else {
        clean_name(seq![])
    }
}

/// The script line a MAP chunk's area enters, read from offset 100.
pub open spec fn area_line(c: Seq<u8>) -> Option<u32> {
    if c.len() > 100 {
        parse_u32(text_nt(c.subrange(100, c.len() as int)))
    } else {
        None
    }
}

/// The overlay flag of a MAP chunk.
pub open spec fn map_overlay(c: Seq<u8>) -> bool {
    c.len() >= 0x44 && be32_at(c, 0x40) != 0
}

/// The areas of a MAP chunk: one when it is long enough to hold two points.
pub open spec fn map_areas(c: Seq<u8>) -> Seq<AreaView> {
    if c.len() >= 0x12c + 16 {
        let b = area_box(c);
        seq![
            AreaView {
                area_id: be32_at(c, 0x128),
                x1: b.0,
                y1: b.1,
                x2: b.2,
                y2: b.3,
                target: area_target(c),
                script_entry_line: area_line(c),
                is_overlay: map_overlay(c),
                micro_scripts: micro_upto(c, micro_count(c)),
            },
        ]
    } else {
        seq![]
    }
}

/// The view of a MAP chunk.
pub open spec fn map_view(c: Seq<u8>) -> ChunkView {
    let n = if c.len() < 32 { c.len() as int } else { 32 };
    ChunkView::MapHotspots(text_nt(c.subrange(0, n)), map_areas(c))
}

/// The sound file name of a BGSOUND chunk.
pub open spec fn bgsound_name(c: Seq<u8>) -> Seq<char> {
    if c.len() >= 8 {
        let nl = be32_at(c, 4) as int;
        if 8 + nl <= c.len() {
            text_nt(c.subrange(8, 8 + nl))
        } else {
            text_nt(c.subrange(8, c.len() as int))
        }
    } else {
        text_nt(c)
    }
}

/// The view of a BGSOUND chunk.
pub open spec fn bgsound_view(c: Seq<u8>) -> ChunkView {
    ChunkView::BgSound(clean_name(bgsound_name(c)), if c.len() >= 8 { be32_at(c, 0) } else { 1 })
}

/// The first of the probe offsets 0, 16, 32, 64, 128 at or after index `k`
/// whose text names a `.CHM` or `.DAT` file.
pub open spec fn href_probe(c: Seq<u8>, k: int) -> Seq<char>
    decreases 5 - k,
{
    if k < 0 || k >= 5 {
        seq![]
    } else {
        let off = if k == 0 { 0int } else if k == 1 { 16int } else if k == 2 { 32int } else if k == 3 { 64int } else { 128int };
        if off < c.len() && (ends_ci(text_nt(c.subrange(off, c.len() as int)), ".CHM"@) || ends_ci(
            text_nt(c.subrange(off, c.len() as int)),
            ".DAT"@,
        )) {
            text_nt(c.subrange(off, c.len() as int))
        } else {
            href_probe(c, k + 1)
        }
    }
}

/// The target recorded at 0xB0 of an HREF chunk.
pub open spec fn href_recorded(c: Seq<u8>) -> Seq<char> {
    if c.len() > 0xb0 {
        let tl = be32_at(c, 0xb0) as int;
        if tl > 0 && 0xb8 + tl <= c.len() {
            text_nt(c.subrange(0xb8, 0xb8 + tl))
        } else if 0xb8 < c.len() {
            text_nt(c.subrange(0xb8, c.len() as int))
        } else {
            seq![]
        }
    } else {
        seq![]
    }
}

/// The cleaned target of an HREF chunk.
pub open spec fn href_target(c: Seq<u8>) -> Seq<char> {
    let t = href_recorded(c);
    clean_name(if t.len() == 0 { href_probe(c, 0) } else { t })
}

/// The view of an HREF chunk on a page of the given size.
pub open spec fn href_view(c: Seq<u8>, w: u32, h: u32) -> ChunkView {
    let t = href_target(c);
    ChunkView::Href(
        t,
        AreaView {
            area_id: 1,
            x1: 0,
            y1: 0,
            x2: w as i32,
            y2: h as i32,
            target: t,
            script_entry_line: None,
            is_overlay: false,
            micro_scripts: seq![],
        },
    )
}

/// `VCDSCRIPT`.
pub open spec fn script_magic() -> Seq<u8> {
    seq![0x56u8, 0x43, 0x44, 0x53, 0x43, 0x52, 0x49, 0x50, 0x54]
}

/// The view of a VCDSCRIPT chunk.
pub open spec fn script_view(c: Seq<u8>) -> ChunkView {
    if c.len() > 0x18 && holds_at(c, 0, script_magic()) {
        let tl = be32_at(c, 0x14) as int;
        if 0x18 + tl <= c.len() {
            ChunkView::VcdScript(utf8_lossy(c.subrange(0x18, 0x18 + tl)))
        } else {
            ChunkView::VcdScript(utf8_lossy(c.subrange(0x18, c.len() as int)))
        }
    } else {
        ChunkView::VcdScript(utf8_lossy(c))
    }
}

/// The view of a chunk of type `t`, flags `f`, and data `c`.
pub open spec fn chunk_view(t: u32, f: u32, c: Seq<u8>, w: u32, h: u32) -> ChunkView {
    if t == 0 {
        ChunkView::Title(text_nt(c))
    } else if t == 1 {
        ChunkView::BodyStyle(
            if c.len() > 0x10 { text_nt(c.subrange(0, 0x20)) } else { "Courier"@ },
            if c.len() > 0x40 { text_nt(c.subrange(0x40, c.len() as int)) } else { seq![] },
        )
    } else if t == 3 {
        if c.len() >= 0x20 {
            ChunkView::Image(img_view(c))
        } else {
            ChunkView::Raw(t, f, c)
        }
    } else if t == 11 {
        map_view(c)
    } else if t == 15 {
        bgsound_view(c)
    } else if t == 13 {
        href_view(c, w, h)
    } else if t == 14 {
        if c.len() >= 12 {
            ChunkView::VariableText(be32_at(c, 0) as i32, be32_at(c, 4) as i32, text_nt(c.subrange(8, 12)))
        } else {
            ChunkView::Raw(t, f, c)
        }
    } else if t == 16 {
        script_view(c)
    } else {
        ChunkView::Raw(t, f, c)
    }
}

/// A chunk of this type and size makes the parser slice out of range.
pub open spec fn chunk_cut(t: u32, size: int) -> bool {
    (t == 1 && 0x10 < size < 0x20) || (t == 13 && 0xb0 < size < 0xb4)
}

// ---------------------------------------------------------------------------
// Document specifications
// ---------------------------------------------------------------------------

/// `<COMPHTML>`.
pub open spec fn chm_magic() -> Seq<u8> {
    seq![0x3cu8, 0x43, 0x4f, 0x4d, 0x50, 0x48, 0x54, 0x4d, 0x4c, 0x3e]
}

/// `</COMPHTML>`.
pub open spec fn chm_end_tag() -> Seq<u8> {
    seq![0x3cu8, 0x2f, 0x43, 0x4f, 0x4d, 0x50, 0x48, 0x54, 0x4d, 0x4c, 0x3e]
}

/// The size of a chunk whose header is at `off`.
pub open spec fn chunk_size(d: Seq<u8>, off: int) -> int {
    be32_at(d, off + 4) as int
}

/// The header offsets of the chunks from `off` on.
#[verifier::opaque]
pub open spec fn chunk_starts(d: Seq<u8>, off: int) -> Seq<int>
    decreases d.len() - off,
{
    if off < 0 || off + 12 > d.len() {
        seq![]
    } else if holds_at(d, off, chm_end_tag()) {
        seq![]
    } else if off + 12 + chunk_size(d, off) > d.len() {
        seq![]
    } else {
        seq![off] + chunk_starts(d, off + 12 + chunk_size(d, off))
    }
}

/// The number of palette entries a page stores: its palette size, at most 256.
pub open spec fn pal_n(d: Seq<u8>) -> int {
    let n = be32_at(d, 152) as int;
    if n < 256 {
        n
    } else {
        256
    }
}

/// Where the chunks of a page begin.
pub open spec fn chunks_begin(d: Seq<u8>) -> int {
    220 + 4 * pal_n(d)
}

/// The header fields of a page are readable and valid.
pub open spec fn chm_error(d: Seq<u8>) -> Option<ChmError> {
    let w = be32_at(d, 140);
    let h = be32_at(d, 144);
    if d.len() < 220 {
        Some(ChmError::DataTooSmall(d.len() as usize))
    } else if !holds_at(d, 0, chm_magic()) {
        Some(ChmError::InvalidMagic)
    } else if w == 0 || h == 0 || w > 4096 || h > 4096 {
        Some(ChmError::InvalidDimensions(w, h))
    } else if d.len() < chunks_begin(d) {
        Some(ChmError::DataTooSmall(d.len() as usize))
    } else {
        None
    }
}

/// A page whose chunks include one that would be sliced out of range.
pub open spec fn chm_has_cut_chunk(d: Seq<u8>) -> bool {
    let s = chunk_starts(d, chunks_begin(d));
    chm_error(d) is None && exists|i: int|
        0 <= i < s.len() && #[trigger] chunk_cut(be32_at(d, s[i]), chunk_size(d, s[i]))
}

/// The view of the chunk whose header is at `off`.
pub open spec fn chunk_view_at(d: Seq<u8>, off: int) -> ChunkView {
    chunk_view(
        be32_at(d, off),
        be32_at(d, off + 8),
        d.subrange(off + 12, off + 12 + chunk_size(d, off)),
        be32_at(d, 140),
        be32_at(d, 144),
    )
}

impl CompHtmlDoc {
    /// The document is what page `d` holds, with palette entries converted by `conv`.
    pub open spec fn parsed_from<F: Fn(u8, u8, u8, u8) -> RgbColor>(&self, d: Seq<u8>, conv: F) -> bool {
        let s = chunk_starts(d, chunks_begin(d));
        &&& self.title@ == text_nt(d.subrange(44, 108))
        &&& self.author@ == text_nt(d.subrange(108, 140))
        &&& self.width == be32_at(d, 140)
        &&& self.height == be32_at(d, 144)
        &&& self.bg_color_idx == be32_at(d, 148)
        &&& self.palette_count == be32_at(d, 152)
        &&& palette_ok(self.palette@, d, 220, pal_n(d), conv)
        &&& self.chunks@.len() == s.len()
        &&& forall|i: int| 0 <= i < s.len() ==> (#[trigger] self.chunks@[i])@ == chunk_view_at(d, s[i])
    }
}

// ---------------------------------------------------------------------------
// Chunk parsers
// ---------------------------------------------------------------------------

fn is_ext_byte_at(c: &[u8], i: usize) -> (r: bool)
    ensures
        r == image_ext_at(c@, i as int),
{
    let n = c.len();
    if i > n || 4 > n - i {
        return false;
    }
    let a = up8_exec(c[i + 1]);
    let b = up8_exec(c[i + 2]);
    let e = up8_exec(c[i + 3]);
    c[i] == 0x2e && ((a == 0x59 && b == 0x42 && e == 0x4d) || (a == 0x42 && b == 0x4d && e == 0x50))
}

fn up8_exec(b: u8) -> (r: u8)
    ensures
        r == up8(b),
{
    if b >= 97 && b <= 122 {
        b - 32
    } else {
        b
    }
}

fn img_primary_exec(c: &[u8]) -> (r: Option<String>)
    ensures
        match img_primary(c@) {
            Some(s) => r matches Some(x) && x@ == s,
            None => r is None,
        },
{
    let n = c.len();
    if n >= 0x64 {
        let fl32 = read_be32(c, 0x60);
        if fl32 > 0 && fl32 < 64 && 0x64 + (fl32 as usize) <= n {
            let fl = fl32 as usize;
            let s = lossy_nt(c, 0x64, 0x64 + fl);
            if str_ends_ci(s.as_str(), ".YBM") || str_ends_ci(s.as_str(), ".BMP") {
                return Some(s);
            }
        }
    }
    None
}

fn img_filename_exec(c: &[u8]) -> (r: String)
    requires
        c@.len() >= 0x20,
    ensures
        r@ == img_filename(c@),
{
    let n = c.len();
    match img_primary_exec(c) {
        Some(s) => return s,
        None => {},
    }
    // Fallback: the last extension in the data.
    let mut j: usize = if n >= 3 {
        n - 3
    } else {
        0
    };
    assert(last_ext_below(c@, c@.len() - 3) == last_ext_below(c@, j as int)) by {
        if n < 3 {
            assert(last_ext_below(c@, c@.len() - 3) is None);
        }
    }
    while j > 0
        invariant
            n == c@.len(),
            j <= n,
            img_primary(c@) is None,
            last_ext_below(c@, c@.len() - 3) == last_ext_below(c@, j as int),
        decreases j,
    {
        if is_ext_byte_at(c, j - 1) {
            let i = j - 1;
            let mut start = i;
            while start > 0 && c[start - 1] >= 32 && c[start - 1] < 127 && c[start - 1] != 0x22
                invariant
                    n == c@.len(),
                    start <= i < n,
                    name_start(c@, i as int) == name_start(c@, start as int),
                decreases start,
            {
                start -= 1;
            }
            let b = copy_bytes(c, start, i + 4);
            assert(name_start(c@, start as int) == start);
            assert(last_ext_below(c@, j as int) == Some(i as int));
            assert(img_primary(c@) is None);
            return lossy_string(&b);
        }
        j -= 1;
    }
    String::new()
}

fn parse_img(c: &[u8]) -> (r: ImageElement)
    requires
        c@.len() >= 0x20,
    ensures
        r@ == img_view(c@),
{
    let n = c.len();
    let um = lossy_nt(c, 0x1c, n);
    let usemap = if char_count(um.as_str()) > 0 {
        Some(um)
    } else {
        None
    };
    ImageElement {
        x: read_be_i32(c, 0),
        y: read_be_i32(c, 4),
        width: read_be32(c, 8),
        height: read_be32(c, 12),
        usemap,
        filename: img_filename_exec(c),
    }
}

fn parse_micro_ops(c: &[u8]) -> (r: Vec<MicroScriptOp>)
    ensures
        r@.map_values(|m: MicroScriptOp| m@) == micro_upto(c@, micro_count(c@)),
{
    let n = c.len();
    let mut ops: Vec<MicroScriptOp> = Vec::new();
    if n < 0x78 {
        assert(ops@.map_values(|m: MicroScriptOp| m@) =~= micro_upto(c@, 0));
        return ops;
    }
    let count = read_be32(c, 0x74) as u64;
    let room = ((n - 0x78) / 0x1c) as u64;
    let mut i: u64 = 0;
    while i < count && i < room
        invariant
            n == c@.len(),
            n >= 0x78,
            room == (n - 0x78) / 0x1c,
            count == be32_at(c@, 0x74),
            i <= room,
            i <= count,
            ops@.map_values(|m: MicroScriptOp| m@) == micro_upto(c@, i as int),
        decreases room - i,
    {
        let s = (0x78 + i * 0x1c) as usize;
        let target_var = lossy_nt(c, s, s + 4);
        let op1 = lossy_nt(c, s + 8, s + 12);
        let opcode = read_be32(c, s + 0x10);
        let op2 = lossy_nt(c, s + 0x14, s + 0x1c);
        let ghost before = ops@;
        if char_count(target_var.as_str()) > 0 {
            ops.push(MicroScriptOp { target_var, op1, opcode, op2 });
            assert(ops@.map_values(|m: MicroScriptOp| m@) =~= before.map_values(|m: MicroScriptOp| m@).push(
                op_at(c@, i as int),
            ));
        }
        i += 1;
    }
    ops
}

fn min_i32(a: i32, b: i32) -> (r: i32)
    ensures
        r == min32(a, b),
{
    if a <= b {
        a
    } else {
        b
    }
}

fn max_i32(a: i32, b: i32) -> (r: i32)
    ensures
        r == max32(a, b),
{
    if a >= b {
        a
    } else {
        b
    }
}

fn parse_area(c: &[u8]) -> (r: MapArea)
    requires
        c@.len() >= 0x12c + 16,
    ensures
        seq![r@] == map_areas(c@),
{
    let n = c.len();
    let num_points = read_be32(c, 0x124) as u64;
    let area_id = read_be32(c, 0x128);
    let np: usize = if num_points < 2 {
        2
    } else if num_points > 32 {
        32
    } else {
        num_points as usize
    };
    let room = (n - 0x12c) / 8;
    let kp = if np < room {
        np
    } else {
        room
    };
    let mut bx: (i32, i32, i32, i32) = (i32::MAX, i32::MAX, i32::MIN, i32::MIN);
    let mut i: usize = 0;
    while i < kp
        invariant
            n == c@.len(),
            n >= 0x12c + 16,
            room == (n - 0x12c) / 8,
            kp <= room,
            i <= kp,
            bx == bbox_upto(c@, i as int),
        decreases kp - i,
    {
        let p = 0x12c + i * 8;
        let x = read_be_i32(c, p);
        let y = read_be_i32(c, p + 4);
        bx = (min_i32(bx.0, x), min_i32(bx.1, y), max_i32(bx.2, x), max_i32(bx.3, y));
        i += 1;
    }
    assert(kp as int == pts_present(c@));
    if bx.0 == i32::MAX {
        bx = (0, 0, 0, 0);
    }
    let target_off = 0x12c + np * 8;
    let raw_target = if target_off < n {
        lossy_nt(c, target_off, n)
    } else {
        String::new()
    };
    let target = clean_string(raw_target.as_str());
    let script_entry_line = if n > 100 {
        let s = lossy_nt(c, 100, n);
        let v = chars_of(s.as_str());
        assert(v@.subrange(0, v@.len() as int) =~= v@);
        range_parse_u32(&v, 0, v.len())
    } else {
        None
    };
    let is_overlay = n >= 0x44 && read_be32(c, 0x40) != 0;
    let micro_scripts = parse_micro_ops(c);
    let a = MapArea {
        area_id,
        x1: bx.0,
        y1: bx.1,
        x2: bx.2,
        y2: bx.3,
        target,
        script_entry_line,
        is_overlay,
        micro_scripts,
    };
    assert(seq![a@] =~= map_areas(c@));
    a
}

fn parse_map(c: &[u8]) -> (r: ChunkPayload)
    ensures
        r@ == map_view(c@),
{
    let n = c.len();
    let map_name = lossy_nt(c, 0, if n < 32 { n } else { 32 });
    let mut areas: Vec<MapArea> = Vec::new();
    if n >= 0x12c + 16 {
        let a = parse_area(c);
        areas.push(a);
    }
    assert(areas@.map_values(|a: MapArea| a@) =~= map_areas(c@));
    ChunkPayload::MapHotspots { map_name, areas }
}

fn parse_bgsound(c: &[u8]) -> (r: ChunkPayload)
    ensures
        r@ == bgsound_view(c@),
{
    let n = c.len();
    let (loop_count, snd) = if n >= 8 {
        let lc = read_be32(c, 0);
        let nl = read_be32(c, 4) as u64;
        let s = if 8 + nl <= n as u64 {
            lossy_nt(c, 8, (8 + nl) as usize)
        } else {
            lossy_nt(c, 8, n)
        };
        (lc, s)
    } else {
        assert(c@.subrange(0, n as int) =~= c@);
        (1u32, lossy_nt(c, 0, n))
    };
    let filename = clean_string(snd.as_str());
    ChunkPayload::BgSound { filename, loop_count }
}

fn probe_at(c: &[u8], off: usize) -> (r: Option<String>)
    ensures
        match r {
            Some(s) => off < c@.len() && s@ == text_nt(c@.subrange(off as int, c@.len() as int)) && (ends_ci(
                s@,
                ".CHM"@,
            ) || ends_ci(s@, ".DAT"@)),
            None => !(off < c@.len() && (ends_ci(text_nt(c@.subrange(off as int, c@.len() as int)), ".CHM"@)
                || ends_ci(text_nt(c@.subrange(off as int, c@.len() as int)), ".DAT"@))),
        },
{
    let n = c.len();
    if off < n {
        let s = lossy_nt(c, off, n);
        if str_ends_ci(s.as_str(), ".CHM") || str_ends_ci(s.as_str(), ".DAT") {
            return Some(s);
        }
    }
    None
}

fn parse_href(c: &[u8], w: u32, h: u32) -> (r: ChunkPayload)
    requires
        !(0xb0 < c@.len() < 0xb4),
    ensures
        r@ == href_view(c@, w, h),
{
    let n = c.len();
    let mut target = String::new();
    if n > 0xb0 {
        let tl = read_be32(c, 0xb0) as u64;
        if tl > 0 && 0xb8 + tl <= n as u64 {
            target = lossy_nt(c, 0xb8, (0xb8 + tl) as usize);
        } else if 0xb8 < n {
            target = lossy_nt(c, 0xb8, n);
        }
    }
    assert(target@ == href_recorded(c@));
    if char_count(target.as_str()) == 0 {
        let found = match probe_at(c, 0) {
            Some(s) => Some(s),
            None => match probe_at(c, 16) {
                Some(s) => Some(s),
                None => match probe_at(c, 32) {
                    Some(s) => Some(s),
                    None => match probe_at(c, 64) {
                        Some(s) => Some(s),
                        None => probe_at(c, 128),
                    },
                },
            },
        };
        target = match found {
            Some(s) => s,
            None => String::new(),
        };
        proof {
            reveal_with_fuel(href_probe, 6);
        }
        assert(target@ == href_probe(c@, 0));
    }
    let clean = clean_string(target.as_str());
    let clean2 = clean_string(target.as_str());
    let area = MapArea {
        area_id: 1,
        x1: 0,
        y1: 0,
        x2: w as i32,
        y2: h as i32,
        target: clean2,
        script_entry_line: None,
        is_overlay: false,
        micro_scripts: Vec::new(),
    };
    assert(area.micro_scripts@.map_values(|m: MicroScriptOp| m@) =~= Seq::<MicroOpView>::empty());
    ChunkPayload::Href { target: clean, area }
}

fn parse_script(c: &[u8]) -> (r: ChunkPayload)
    ensures
        r@ == script_view(c@),
{
    let n = c.len();
    let magic: [u8; 9] = [0x56, 0x43, 0x44, 0x53, 0x43, 0x52, 0x49, 0x50, 0x54];
    assert(magic@ =~= script_magic());
    if n > 0x18 && bytes_at(c, 0, &magic) {
        let tl = read_be32(c, 0x14) as u64;
        let end = if 0x18 + tl <= n as u64 {
            (0x18 + tl) as usize
        } else {
            n
        };
        let b = copy_bytes(c, 0x18, end);
        ChunkPayload::VcdScript(lossy_string(&b))
    } else {
        ChunkPayload::VcdScript(lossy_string(c))
    }
}

fn parse_chunk(t: u32, f: u32, c: &[u8], w: u32, h: u32) -> (r: ChunkPayload)
    requires
        !chunk_cut(t, c@.len() as int),
    ensures
        r@ == chunk_view(t, f, c@, w, h),
{
    let n = c.len();
    assert(c@.subrange(0, n as int) =~= c@);
    if t == CHUNK_TYPE_TITLE {
        ChunkPayload::Title(lossy_nt(c, 0, n))
    } else if t == CHUNK_TYPE_BODY_STYLE {
        let font_name = if n > 0x10 {
            lossy_nt(c, 0, 0x20)
        } else {
            String::from_str("Courier")
        };
        let source_path = if n > 0x40 {
            lossy_nt(c, 0x40, n)
        } else {
            String::new()
        };
        ChunkPayload::BodyStyle { font_name, source_path }
    } else if t == CHUNK_TYPE_IMG {
        if n >= 0x20 {
            ChunkPayload::Image(parse_img(c))
        } else {
            ChunkPayload::Raw { chunk_type: t, flags: f, data: copy_bytes(c, 0, n) }
        }
    } else if t == CHUNK_TYPE_MAP {
        parse_map(c)
    } else if t == CHUNK_TYPE_BGSOUND {
        parse_bgsound(c)
    } else if t == CHUNK_TYPE_HREF {
        parse_href(c, w, h)
    } else if t == CHUNK_TYPE_VARIABLE_TEXT {
        if n >= 12 {
            ChunkPayload::VariableText { x: read_be_i32(c, 0), y: read_be_i32(c, 4), var_name: lossy_nt(c, 8, 12) }
        } else {
            ChunkPayload::Raw { chunk_type: t, flags: f, data: copy_bytes(c, 0, n) }
        }
    } else if t == CHUNK_TYPE_VCDSCRIPT {
        parse_script(c)
    } else {
        ChunkPayload::Raw { chunk_type: t, flags: f, data: copy_bytes(c, 0, n) }
    }
}

// ---------------------------------------------------------------------------
// Documents
// ---------------------------------------------------------------------------

/// Reads the header of the chunk at `off`, or `None` where the chunk list ends there.
fn next_chunk(bytes: &[u8], off: usize) -> (r: Option<(u32, usize, u32)>)
    requires
        off <= bytes@.len(),
    ensures
        match r {
            None => chunk_starts(bytes@, off as int) == Seq::<int>::empty(),
            Some((t, size, f)) => {
                &&& off + 12 + size <= bytes@.len()
                &&& t == be32_at(bytes@, off as int)
                &&& size == chunk_size(bytes@, off as int)
                &&& f == be32_at(bytes@, off + 8)
                &&& chunk_starts(bytes@, off as int) == seq![off as int] + chunk_starts(
                    bytes@,
                    off + 12 + size,
                )
            },
        },
{
    let n = bytes.len();
    proof {
        reveal(chunk_starts);
    }
    if n - off < 12 {
        return None;
    }
    let end_tag: [u8; 11] = [0x3c, 0x2f, 0x43, 0x4f, 0x4d, 0x50, 0x48, 0x54, 0x4d, 0x4c, 0x3e];
    assert(end_tag@ =~= chm_end_tag());
    if bytes_at(bytes, off, &end_tag) {
        return None;
    }
    let t = read_be32(bytes, off);
    let size = read_be32(bytes, off + 4) as u64;
    let f = read_be32(bytes, off + 8);
    if size > (n - off - 12) as u64 {
        return None;
    }
    Some((t, size as usize, f))
}

impl CompHtmlDoc {
    /// Parses a page, converting palette entries with `conv`.
    ///
    /// Pages with a body-style chunk of 17..=31 bytes or an HREF chunk of
    /// 177..=179 bytes are outside the domain (their fields would be read past
    /// the chunk's end); `has_cut_chunk` tells them apart.
    pub fn parse<F: Fn(u8, u8, u8, u8) -> RgbColor>(bytes: &[u8], conv: F) -> (r: Result<Self, ChmError>)
        requires
            forall|a: u8, b: u8, c: u8, e: u8| call_requires(conv, (a, b, c, e)),
            !chm_has_cut_chunk(bytes@),
        ensures
            match chm_error(bytes@) {
                Some(e) => r == Err::<Self, ChmError>(e),
                None => r matches Ok(doc) && doc.parsed_from(bytes@, conv),
            },
    {
        let n = bytes.len();
        if n < 220 {
            return Err(ChmError::DataTooSmall(n));
        }
        let magic: [u8; 10] = [0x3c, 0x43, 0x4f, 0x4d, 0x50, 0x48, 0x54, 0x4d, 0x4c, 0x3e];
        assert(magic@ =~= chm_magic());
        if !bytes_at(bytes, 0, &magic) {
            return Err(ChmError::InvalidMagic);
        }
        let title = lossy_nt(bytes, 44, 108);
        let author = lossy_nt(bytes, 108, 140);
        let width = read_be32(bytes, 140);
        let height = read_be32(bytes, 144);
        let bg_color_idx = read_be32(bytes, 148);
        let palette_count = read_be32(bytes, 152);
        if width == 0 || height == 0 || width > 4096 || height > 4096 {
            return Err(ChmError::InvalidDimensions(width, height));
        }
        let pn: usize = if palette_count < 256 {
            palette_count as usize
        } else {
            256
        };
        let begin = 220 + 4 * pn;
        if n < begin {
            return Err(ChmError::DataTooSmall(n));
        }
        let palette = decode_palette(bytes, 220, pn, &conv);
        let chunks = Self::parse_chunks(bytes, begin, width, height);
        Ok(CompHtmlDoc { title, author, width, height, bg_color_idx, palette_count, palette, chunks })
    }

    fn parse_chunks(bytes: &[u8], begin: usize, width: u32, height: u32) -> (chunks: Vec<ChunkPayload>)
        requires
            begin == chunks_begin(bytes@),
            chm_error(bytes@) is None,
            !chm_has_cut_chunk(bytes@),
            be32_at(bytes@, 140) == width,
            be32_at(bytes@, 144) == height,
        ensures
            chunks@.len() == chunk_starts(bytes@, begin as int).len(),
            forall|i: int|
                0 <= i < chunks@.len() ==> (#[trigger] chunks@[i])@ == chunk_view_at(
                    bytes@,
                    chunk_starts(bytes@, begin as int)[i],
                ),
    {
        let mut chunks: Vec<ChunkPayload> = Vec::new();
        let n = bytes.len();
        let ghost d = bytes@;
        let ghost all = chunk_starts(d, begin as int);
        let ghost mut found: Seq<int> = seq![];
        let mut off = begin;
        loop
            invariant
                d == bytes@,
                all == chunk_starts(d, begin as int),
                begin == chunks_begin(d),
                chm_error(d) is None,
                !chm_has_cut_chunk(d),
                be32_at(d, 140) == width,
                be32_at(d, 144) == height,
                n == d.len(),
                off <= d.len(),
                all == found + chunk_starts(d, off as int),
                chunks@.len() == found.len(),
                forall|i: int| 0 <= i < found.len() ==> (#[trigger] chunks@[i])@ == chunk_view_at(d, found[i]),
            ensures
                all == found,
                chunks@.len() == found.len(),
                forall|i: int| 0 <= i < found.len() ==> (#[trigger] chunks@[i])@ == chunk_view_at(d, found[i]),
            decreases d.len() - off,
        {
            match next_chunk(bytes, off) {
                None => {
                    assert(found + Seq::<int>::empty() =~= found);
                    break;
                },
                Some((t, size, f)) => {
                    proof {
                        assert(all[found.len() as int] == off);
                        assert(!chunk_cut(be32_at(d, all[found.len() as int]), chunk_size(d, all[found.len() as int])));
                    }
                    let c = copy_bytes(bytes, off + 12, off + 12 + size);
                    let payload = parse_chunk(t, f, &c, width, height);
                    let ghost old_chunks = chunks@;
                    chunks.push(payload);
                    proof {
                        assert(all =~= found.push(off as int) + chunk_starts(d, off + 12 + size));
                        found = found.push(off as int);
                        assert forall|i: int| 0 <= i < found.len() implies (#[trigger] chunks@[i])@
                            == chunk_view_at(d, found[i]) by {
                            if i < found.len() - 1 {
                                assert(chunks@[i] == old_chunks[i]);
                            }
                        }
                    }
                    off = off + 12 + size;
                },
            }
        }
        chunks
    }

    /// Whether a page holds a chunk that `parse` would read past its end.
    pub fn has_cut_chunk(bytes: &[u8]) -> (r: bool)
        ensures
            r == chm_has_cut_chunk(bytes@),
    {
        let n = bytes.len();
        if n < 220 {
            return false;
        }
        let magic: [u8; 10] = [0x3c, 0x43, 0x4f, 0x4d, 0x50, 0x48, 0x54, 0x4d, 0x4c, 0x3e];
        assert(magic@ =~= chm_magic());
        if !bytes_at(bytes, 0, &magic) {
            return false;
        }
        let width = read_be32(bytes, 140);
        let height = read_be32(bytes, 144);
        if width == 0 || height == 0 || width > 4096 || height > 4096 {
            return false;
        }
        let palette_count = read_be32(bytes, 152);
        let pn: usize = if palette_count < 256 {
            palette_count as usize
        } else {
            256
        };
        let begin = 220 + 4 * pn;
        if n < begin {
            return false;
        }
        let ghost d = bytes@;
        let ghost all = chunk_starts(d, begin as int);
        let ghost mut found: Seq<int> = seq![];
        let mut off = begin;
        loop
            invariant
                d == bytes@,
                all == chunk_starts(d, begin as int),
                begin == chunks_begin(d),
                chm_error(d) is None,
                n == d.len(),
                off <= d.len(),
                all == found + chunk_starts(d, off as int),
                forall|i: int| 0 <= i < found.len() ==> !#[trigger] chunk_cut(be32_at(d, found[i]), chunk_size(d, found[i])),
            decreases d.len() - off,
        {
            match next_chunk(bytes, off) {
                None => {
                    assert(found + Seq::<int>::empty() =~= found);
                    return false;
                },
                Some((t, size, _f)) => {
                    if (t == 1 && size > 0x10 && size < 0x20) || (t == 13 && size > 0xb0 && size < 0xb4) {
                        proof {
                            assert(all[found.len() as int] == off);
                            assert(chunk_cut(be32_at(d, all[found.len() as int]), chunk_size(d, all[found.len() as int])));
                        }
                        return true;
                    }
                    proof {
                        assert(all =~= found.push(off as int) + chunk_starts(d, off + 12 + size));
                        found = found.push(off as int);
                    }
                    off = off + 12 + size;
                },
            }
        }
    }
}

// ---------------------------------------------------------------------------
// Queries
// ---------------------------------------------------------------------------

impl CompHtmlDoc {
    /// The chunks, by their views.
    pub open spec fn chunk_views(&self) -> Seq<ChunkView> {
        self.chunks@.map_values(|c: ChunkPayload| c@)
    }
}

/// The file name of the first image chunk with a non-empty file name.
pub open spec fn first_image(s: Seq<ChunkView>) -> Option<Seq<char>>
    decreases s.len(),
{
    if s.len() == 0 {
        None
    } else if s[0] matches ChunkView::Image(img) && img.filename.len() > 0 {
        Some(s[0]->Image_0.filename)
    } else {
        first_image(s.drop_first())
    }
}

/// The file name and loop count of the first BGSOUND chunk with a non-empty file name.
pub open spec fn first_sound(s: Seq<ChunkView>) -> Option<(Seq<char>, u32)>
    decreases s.len(),
{
    if s.len() == 0 {
        None
    } else if s[0] matches ChunkView::BgSound(f, n) && f.len() > 0 {
        Some((s[0]->BgSound_0, s[0]->BgSound_1))
    } else {
        first_sound(s.drop_first())
    }
}

/// The text of the first VCDSCRIPT chunk.
pub open spec fn first_script(s: Seq<ChunkView>) -> Option<Seq<char>>
    decreases s.len(),
{
    if s.len() == 0 {
        None
    } else if s[0] is VcdScript {
        Some(s[0]->VcdScript_0)
    } else {
        first_script(s.drop_first())
    }
}

/// The areas of all MAP chunks, in order.
pub open spec fn map_hotspots(s: Seq<ChunkView>) -> Seq<AreaView>
    decreases s.len(),
{
    if s.len() == 0 {
        seq![]
    } else if s[0] is MapHotspots {
        s[0]->MapHotspots_1 + map_hotspots(s.drop_first())
    } else {
        map_hotspots(s.drop_first())
    }
}

/// The areas of the HREF chunks with a non-empty target, in order.
pub open spec fn href_hotspots(s: Seq<ChunkView>) -> Seq<AreaView>
    decreases s.len(),
{
    if s.len() == 0 {
        seq![]
    } else if s[0] matches ChunkView::Href(t, a) && a.target.len() > 0 {
        seq![s[0]->Href_1] + href_hotspots(s.drop_first())
    } else {
        href_hotspots(s.drop_first())
    }
}

/// The hotspots of a page: its MAP areas, or, when it has none, its HREF areas.
pub open spec fn all_hotspots(s: Seq<ChunkView>) -> Seq<AreaView> {
    if map_hotspots(s).len() > 0 {
        map_hotspots(s)
    } else {
        href_hotspots(s)
    }
}

/// The (x, y, variable) triples of the variable-text chunks, in order.
pub open spec fn variable_texts(s: Seq<ChunkView>) -> Seq<(i32, i32, Seq<char>)>
    decreases s.len(),
{
    if s.len() == 0 {
        seq![]
    } else if s[0] is VariableText {
        seq![(s[0]->VariableText_0, s[0]->VariableText_1, s[0]->VariableText_2)] + variable_texts(
            s.drop_first(),
        )
    } else {
        variable_texts(s.drop_first())
    }
}

proof fn lemma_tail<A>(s: Seq<A>, i: int)
    requires
        0 <= i < s.len(),
    ensures
        s.subrange(i, s.len() as int)[0] == s[i],
        s.subrange(i, s.len() as int).drop_first() == s.subrange(i + 1, s.len() as int),
        s.subrange(i, s.len() as int).len() > 0,
{
    assert(s.subrange(i, s.len() as int).drop_first() =~= s.subrange(i + 1, s.len() as int));
}

impl CompHtmlDoc {
    /// The file name of the first image with a non-empty file name.
    pub fn get_background_image(&self) -> (r: Option<&str>)
        ensures
            match first_image(self.chunk_views()) {
                Some(f) => r matches Some(x) && x@ == f,
                None => r is None,
            },
    {
        let ghost s = self.chunk_views();
        let n = self.chunks.len();
        let mut i: usize = 0;
        assert(s.subrange(0, n as int) =~= s);
        while i < n
            invariant
                s == self.chunk_views(),
                n == s.len(),
                i <= n,
                first_image(s) == first_image(s.subrange(i as int, n as int)),
            decreases n - i,
        {
            proof {
                lemma_tail(s, i as int);
            }
            match &self.chunks[i] {
                ChunkPayload::Image(img) => {
                    if !img.filename.as_str().is_empty() {
                        return Some(img.filename.as_str());
                    }
                },
                _ => {},
            }
            i += 1;
        }
        assert(s.subrange(n as int, n as int).len() == 0);
        None
    }

    /// The file name of the first background sound with a non-empty file name.
    pub fn get_background_sound(&self) -> (r: Option<&str>)
        ensures
            match first_sound(self.chunk_views()) {
                Some(f) => r matches Some(x) && x@ == f.0,
                None => r is None,
            },
    {
        match self.get_background_sound_info() {
            Some((f, _)) => Some(f),
            None => None,
        }
    }

    /// The file name and loop count of the first background sound with a non-empty file name.
    pub fn get_background_sound_info(&self) -> (r: Option<(&str, u32)>)
        ensures
            match first_sound(self.chunk_views()) {
                Some(f) => r matches Some(x) && x.0@ == f.0 && x.1 == f.1,
                None => r is None,
            },
    {
        let ghost s = self.chunk_views();
        let n = self.chunks.len();
        let mut i: usize = 0;
        assert(s.subrange(0, n as int) =~= s);
        while i < n
            invariant
                s == self.chunk_views(),
                n == s.len(),
                i <= n,
                first_sound(s) == first_sound(s.subrange(i as int, n as int)),
            decreases n - i,
        {
            proof {
                lemma_tail(s, i as int);
            }
            match &self.chunks[i] {
                ChunkPayload::BgSound { filename, loop_count } => {
                    if !filename.as_str().is_empty() {
                        return Some((filename.as_str(), *loop_count));
                    }
                },
                _ => {},
            }
            i += 1;
        }
        assert(s.subrange(n as int, n as int).len() == 0);
        None
    }

    /// The text of the first VCDSCRIPT chunk.
    pub fn get_script(&self) -> (r: Option<&str>)
        ensures
            match first_script(self.chunk_views()) {
                Some(f) => r matches Some(x) && x@ == f,
                None => r is None,
            },
    {
        let ghost s = self.chunk_views();
        let n = self.chunks.len();
        let mut i: usize = 0;
        assert(s.subrange(0, n as int) =~= s);
        while i < n
            invariant
                s == self.chunk_views(),
                n == s.len(),
                i <= n,
                first_script(s) == first_script(s.subrange(i as int, n as int)),
            decreases n - i,
        {
            proof {
                lemma_tail(s, i as int);
            }
            match &self.chunks[i] {
                ChunkPayload::VcdScript(script) => {
                    return Some(script.as_str());
                },
                _ => {},
            }
            i += 1;
        }
        assert(s.subrange(n as int, n as int).len() == 0);
        None
    }

    /// All hotspots: the MAP areas, or the HREF areas with a target when there are no MAP areas.
    pub fn get_all_hotspots(&self) -> (r: Vec<&MapArea>)
        ensures
            r@.map_values(|a: &MapArea| a@) == all_hotspots(self.chunk_views()),
    {
        let ghost s = self.chunk_views();
        let n = self.chunks.len();
        let mut res: Vec<&MapArea> = Vec::new();
        let mut i: usize = 0;
        assert(s.subrange(0, n as int) =~= s);
        while i < n
            invariant
                s == self.chunk_views(),
                n == s.len(),
                i <= n,
                res@.map_values(|a: &MapArea| a@) + map_hotspots(s.subrange(i as int, n as int))
                    == map_hotspots(s),
            decreases n - i,
        {
            proof {
                lemma_tail(s, i as int);
            }
            let ghost before = res@.map_values(|a: &MapArea| a@);
            match &self.chunks[i] {
                ChunkPayload::MapHotspots { areas, .. } => {
                    let mut j: usize = 0;
                    while j < areas.len()
                        invariant
                            j <= areas@.len(),
                            res@.map_values(|a: &MapArea| a@) == before + areas@.map_values(
                                |a: MapArea| a@,
                            ).subrange(0, j as int),
                        decreases areas@.len() - j,
                    {
                        let ghost prev = res@.map_values(|a: &MapArea| a@);
                        res.push(&areas[j]);
                        assert(res@.map_values(|a: &MapArea| a@) =~= prev.push(areas@[j as int]@));
                        assert(areas@.map_values(|a: MapArea| a@).subrange(0, j + 1) =~= areas@.map_values(
                            |a: MapArea| a@,
                        ).subrange(0, j as int).push(areas@[j as int]@));
                        j += 1;
                    }
                    assert(areas@.map_values(|a: MapArea| a@).subrange(0, areas@.len() as int)
                        =~= areas@.map_values(|a: MapArea| a@));
                },
                _ => {},
            }
            i += 1;
        }
        assert(s.subrange(n as int, n as int).len() == 0);
        if res.len() == 0 {
            let mut i: usize = 0;
            while i < n
                invariant
                    s == self.chunk_views(),
                    n == s.len(),
                    i <= n,
                    map_hotspots(s).len() == 0,
                    res@.map_values(|a: &MapArea| a@) + href_hotspots(s.subrange(i as int, n as int))
                        == href_hotspots(s),
                decreases n - i,
            {
                proof {
                    lemma_tail(s, i as int);
                }
                let ghost before = res@.map_values(|a: &MapArea| a@);
                match &self.chunks[i] {
                    ChunkPayload::Href { area, .. } => {
                        if !area.target.as_str().is_empty() {
                            res.push(area);
                            assert(res@.map_values(|a: &MapArea| a@) =~= before.push(area@));
                        }
                    },
                    _ => {},
                }
                i += 1;
            }
            assert(s.subrange(n as int, n as int).len() == 0);
        }
        res
    }

    /// Whether the page is an overlay: it has no background image and shows variable text.
    pub fn is_overlay(&self) -> (r: bool)
        ensures
            r == (first_image(self.chunk_views()) is None && variable_texts(self.chunk_views()).len() > 0),
    {
        if self.get_background_image().is_some() {
            return false;
        }
        let v = self.get_variable_texts();
        v.len() > 0
    }

    /// The variable-text placements `(x, y, variable)`, in order.
    pub fn get_variable_texts(&self) -> (r: Vec<(i32, i32, &str)>)
        ensures
            r@.map_values(|t: (i32, i32, &str)| (t.0, t.1, t.2@)) == variable_texts(self.chunk_views()),
    {
        let ghost s = self.chunk_views();
        let n = self.chunks.len();
        let mut res: Vec<(i32, i32, &str)> = Vec::new();
        let mut i: usize = 0;
        assert(s.subrange(0, n as int) =~= s);
        while i < n
            invariant
                s == self.chunk_views(),
                n == s.len(),
                i <= n,
                res@.map_values(|t: (i32, i32, &str)| (t.0, t.1, t.2@)) + variable_texts(
                    s.subrange(i as int, n as int),
                ) == variable_texts(s),
            decreases n - i,
        {
            proof {
                lemma_tail(s, i as int);
            }
            let ghost before = res@.map_values(|t: (i32, i32, &str)| (t.0, t.1, t.2@));
            match &self.chunks[i] {
                ChunkPayload::VariableText { x, y, var_name } => {
                    res.push((*x, *y, var_name.as_str()));
                    assert(res@.map_values(|t: (i32, i32, &str)| (t.0, t.1, t.2@)) =~= before.push(
                        (*x, *y, var_name@),
                    ));
                },
                _ => {},
            }
            i += 1;
        }
        assert(s.subrange(n as int, n as int).len() == 0);
        res
    }
}

// ---------------------------------------------------------------------------
// Hotspot geometry
// ---------------------------------------------------------------------------

/// The box `(min x, min y, max x, max y)` an area spans, as authored.
pub open spec fn raw_box(a: AreaView) -> (i32, i32, i32, i32) {
    (min32(a.x1, a.x2), min32(a.y1, a.y2), max32(a.x1, a.x2), max32(a.y1, a.y2))
}

/// The width and height of an area's box fit in an `i32`.
pub open spec fn spans_fit(a: AreaView) -> bool {
    let b = raw_box(a);
    b.2 - b.0 <= i32::MAX && b.3 - b.1 <= i32::MAX
}

/// An area no wider and no taller than 3 pixels: a point anchor.
pub open spec fn is_point(a: AreaView) -> bool {
    let b = raw_box(a);
    b.2 - b.0 <= 3 && b.3 - b.1 <= 3
}

/// Halving rounded toward zero.
pub open spec fn half(v: int) -> int {
    if v >= 0 {
        v / 2
    } else {
        -((-v) / 2)
    }
}

pub open spec fn fits_i32(v: int) -> bool {
    i32::MIN <= v <= i32::MAX
}

/// The arithmetic of `display_bounds` stays within `i32`.
pub open spec fn display_fits(a: AreaView) -> bool {
    let b = raw_box(a);
    &&& spans_fit(a)
    &&& is_point(a) ==> {
        &&& fits_i32(b.0 + b.2)
        &&& fits_i32(b.1 + b.3)
        &&& fits_i32(half(b.0 + b.2) - 12)
        &&& fits_i32(half(b.0 + b.2) + 12)
        &&& fits_i32(half(b.1 + b.3) - 12)
        &&& fits_i32(half(b.1 + b.3) + 12)
    }
}

/// The box drawn for an area: its own box, or for a point anchor a 24-pixel
/// square around its centre, kept on a 352x288 screen.
pub open spec fn display_box(a: AreaView) -> (int, int, int, int) {
    let b = raw_box(a);
    if is_point(a) {
        let mx = half(b.0 + b.2);
        let my = half(b.1 + b.3);
        (
            if mx - 12 > 0 { mx - 12 } else { 0 },
            if my - 12 > 0 { my - 12 } else { 0 },
            if mx + 12 < 352 { mx + 12 } else { 352 },
            if my + 12 < 288 { my + 12 } else { 288 },
        )
    } else {
        (b.0 as int, b.1 as int, b.2 as int, b.3 as int)
    }
}

fn half_i32(v: i32) -> (r: i32)
    ensures
        r == half(v as int),
{
    if v >= 0 {
        v / 2
    } else {
        let w: i64 = -(v as i64);
        let h: i64 = w / 2;
        (-h) as i32
    }
}

impl MapArea {
    /// The box `(min x, min y, max x, max y)` as authored.
    pub fn raw_bounds(&self) -> (r: (i32, i32, i32, i32))
        ensures
            r == raw_box(self@),
    {
        let min_x = if self.x1 <= self.x2 { self.x1 } else { self.x2 };
        let max_x = if self.x1 >= self.x2 { self.x1 } else { self.x2 };
        let min_y = if self.y1 <= self.y2 { self.y1 } else { self.y2 };
        let max_y = if self.y1 >= self.y2 { self.y1 } else { self.y2 };
        (min_x, min_y, max_x, max_y)
    }

    /// Whether the area is a point anchor, at most 3 pixels wide and tall.
    pub fn is_point_hotspot(&self) -> (r: bool)
        requires
            spans_fit(self@),
        ensures
            r == is_point(self@),
    {
        let (min_x, min_y, max_x, max_y) = self.raw_bounds();
        (max_x - min_x) <= 3 && (max_y - min_y) <= 3
    }

    /// The box to draw for the area: point anchors get a 24-pixel indicator square.
    pub fn display_bounds(&self) -> (r: (i32, i32, i32, i32))
        requires
            display_fits(self@),
        ensures
            (r.0 as int, r.1 as int, r.2 as int, r.3 as int) == display_box(self@),
    {
        let (min_x, min_y, max_x, max_y) = self.raw_bounds();
        if self.is_point_hotspot() {
            let mid_x = half_i32(min_x + max_x);
            let mid_y = half_i32(min_y + max_y);
            let a = if mid_x - 12 > 0 { mid_x - 12 } else { 0 };
            let b = if mid_y - 12 > 0 { mid_y - 12 } else { 0 };
            let c = if mid_x + 12 < 352 { mid_x + 12 } else { 352 };
            let d = if mid_y + 12 < 288 { mid_y + 12 } else { 288 };
            (a, b, c, d)
        } else {
            (min_x, min_y, max_x, max_y)
        }
    }
}

/// There are variable texts exactly when some chunk is a variable-text chunk.
pub proof fn lemma_variable_texts_nonempty(s: Seq<ChunkView>)
    ensures
        variable_texts(s).len() > 0 <==> exists|i: int| 0 <= i < s.len() && #[trigger] s[i] is VariableText,
    decreases s.len(),
{
    if s.len() > 0 {
        let t = s.drop_first();
        lemma_variable_texts_nonempty(t);
        if !(s[0] is VariableText) {
            assert forall|i: int| 0 <= i < s.len() && #[trigger] s[i] is VariableText implies exists|j: int|
                0 <= j < t.len() && #[trigger] t[j] is VariableText by {
                assert(i > 0);
                assert(t[i - 1] == s[i]);
            }
            assert forall|j: int| 0 <= j < t.len() && #[trigger] t[j] is VariableText implies exists|i: int|
                0 <= i < s.len() && #[trigger] s[i] is VariableText by {
                assert(s[j + 1] == t[j]);
            }
        }
    }
}

/// A page is an overlay exactly when it has no background image and some
/// chunk of it is a variable-text chunk.
pub proof fn lemma_overlay_iff(doc: CompHtmlDoc)
    ensures
        (first_image(doc.chunk_views()) is None && variable_texts(doc.chunk_views()).len() > 0) <==> (
        first_image(doc.chunk_views()) is None && exists|i: int|
            0 <= i < doc.chunks@.len() && #[trigger] doc.chunks@[i] is VariableText),
{
    let cv = doc.chunk_views();
    lemma_variable_texts_nonempty(cv);
    assert forall|i: int| 0 <= i < doc.chunks@.len() implies (#[trigger] doc.chunks@[i] is VariableText <==> cv[i] is VariableText) by {
        assert(cv[i] == doc.chunks@[i]@);
    }
    if exists|i: int| 0 <= i < doc.chunks@.len() && #[trigger] doc.chunks@[i] is VariableText {
        let i = choose|i: int| 0 <= i < doc.chunks@.len() && #[trigger] doc.chunks@[i] is VariableText;
        assert(cv[i] is VariableText);
    }
    if exists|i: int| 0 <= i < cv.len() && #[trigger] cv[i] is VariableText {
        let i = choose|i: int| 0 <= i < cv.len() && #[trigger] cv[i] is VariableText;
        assert(doc.chunks@[i] is VariableText);
    }
}

/// Whether a chunk is an image with a non-empty file name.
pub open spec fn named_image(c: ChunkView) -> bool {
    c matches ChunkView::Image(img) && img.filename.len() > 0
}

/// The background image is the file name of the first image chunk, in chunk
/// order, whose file name is not empty; there is none exactly when no image
/// chunk has a file name.
pub proof fn lemma_first_image_is_first_named(s: Seq<ChunkView>)
    ensures
        match first_image(s) {
            Some(f) => exists|i: int|
                0 <= i < s.len() && named_image(#[trigger] s[i]) && s[i]->Image_0.filename == f && forall|j: int|
                    0 <= j < i ==> !named_image(#[trigger] s[j]),
            None => forall|i: int| 0 <= i < s.len() ==> !named_image(#[trigger] s[i]),
        },
    decreases s.len(),
{
    if s.len() > 0 {
        let t = s.drop_first();
        lemma_first_image_is_first_named(t);
        if named_image(s[0]) {
            assert(first_image(s) == Some(s[0]->Image_0.filename));
        } else {
            assert(first_image(s) == first_image(t));
            match first_image(t) {
                Some(f) => {
                    let i = choose|i: int|
                        0 <= i < t.len() && named_image(#[trigger] t[i]) && t[i]->Image_0.filename == f && forall|j: int|
                            0 <= j < i ==> !named_image(#[trigger] t[j]);
                    assert(s[i + 1] == t[i]);
                    assert forall|j: int| 0 <= j < i + 1 implies !named_image(#[trigger] s[j]) by {
                        if j > 0 {
                            assert(s[j] == t[j - 1]);
                        }
                    }
                },
                None => {
                    assert forall|i: int| 0 <= i < s.len() implies !named_image(#[trigger] s[i]) by {
                        if i > 0 {
                            assert(s[i] == t[i - 1]);
                        }
                    }
                },
            }
        }
    }
}

/// Hotspots are gathered in chunk order: the MAP areas of two runs of chunks
/// one after the other are those of the first run followed by those of the
/// second, and likewise the HREF areas; one chunk contributes its MAP areas,
/// or its HREF area when the target is not empty.
pub proof fn lemma_hotspots_in_chunk_order(s: Seq<ChunkView>, t: Seq<ChunkView>, c: ChunkView)
    ensures
        map_hotspots(s + t) == map_hotspots(s) + map_hotspots(t),
        href_hotspots(s + t) == href_hotspots(s) + href_hotspots(t),
        map_hotspots(seq![c]) == (if c is MapHotspots {
            c->MapHotspots_1
        } else {
            Seq::empty()
        }),
        href_hotspots(seq![c]) == (if c matches ChunkView::Href(_, a) && a.target.len() > 0 {
            seq![c->Href_1]
        } else {
            Seq::empty()
        }),
    decreases s.len(),
{
    let one = seq![c];
    assert(one.drop_first() =~= Seq::<ChunkView>::empty());
    assert(map_hotspots(one.drop_first()) == Seq::<AreaView>::empty());
    assert(href_hotspots(one.drop_first()) == Seq::<AreaView>::empty());
    if c is MapHotspots {
        assert(c->MapHotspots_1 + Seq::<AreaView>::empty() =~= c->MapHotspots_1);
    }
    if s.len() == 0 {
        assert(s + t =~= t);
        assert(Seq::<AreaView>::empty() + map_hotspots(t) =~= map_hotspots(t));
        assert(Seq::<AreaView>::empty() + href_hotspots(t) =~= href_hotspots(t));
    } else {
        lemma_hotspots_in_chunk_order(s.drop_first(), t, c);
        assert((s + t).drop_first() =~= s.drop_first() + t);
        assert((s + t)[0] == s[0]);
        if s[0] is MapHotspots {
            assert(s[0]->MapHotspots_1 + (map_hotspots(s.drop_first()) + map_hotspots(t)) =~= (s[0]->MapHotspots_1
                + map_hotspots(s.drop_first())) + map_hotspots(t));
        }
        if s[0] matches ChunkView::Href(_, a) && a.target.len() > 0 {
            assert(seq![s[0]->Href_1] + (href_hotspots(s.drop_first()) + href_hotspots(t)) =~= (seq![s[0]->Href_1]
                + href_hotspots(s.drop_first())) + href_hotspots(t));
        }
    }
}

proof fn lemma_bbox_bounds(c: Seq<u8>, k: int)
    requires
        k >= 1,
    ensures
        ({
            let b = bbox_upto(c, k);
            &&& forall|i: int|
                0 <= i < k ==> b.0 <= #[trigger] (be32_at(c, 0x12c + 8 * i) as i32) <= b.2 && b.1 <= (be32_at(
                    c,
                    0x12c + 8 * i + 4,
                ) as i32) <= b.3
            &&& exists|i: int| 0 <= i < k && #[trigger] (be32_at(c, 0x12c + 8 * i) as i32) == b.0
            &&& exists|i: int| 0 <= i < k && #[trigger] (be32_at(c, 0x12c + 8 * i) as i32) == b.2
            &&& exists|i: int| 0 <= i < k && #[trigger] (be32_at(c, 0x12c + 8 * i + 4) as i32) == b.1
            &&& exists|i: int| 0 <= i < k && #[trigger] (be32_at(c, 0x12c + 8 * i + 4) as i32) == b.3
        }),
    decreases k,
{
    let x = be32_at(c, 0x12c + 8 * (k - 1)) as i32;
    let y = be32_at(c, 0x12c + 8 * (k - 1) + 4) as i32;
    if k == 1 {
        assert(bbox_upto(c, 0) == (i32::MAX, i32::MAX, i32::MIN, i32::MIN));
        assert(be32_at(c, 0x12c + 8 * 0int) as i32 == x);
        assert(be32_at(c, 0x12c + 8 * 0int + 4) as i32 == y);
    } else {
        lemma_bbox_bounds(c, k - 1);
        let b = bbox_upto(c, k);
        let p = bbox_upto(c, k - 1);
        assert(be32_at(c, 0x12c + 8 * (k - 1)) as i32 == x);
        assert(be32_at(c, 0x12c + 8 * (k - 1) + 4) as i32 == y);
        if b.0 != x {
            let i = choose|i: int| 0 <= i < k - 1 && #[trigger] (be32_at(c, 0x12c + 8 * i) as i32) == p.0;
            assert(be32_at(c, 0x12c + 8 * i) as i32 == b.0);
        }
        if b.2 != x {
            let i = choose|i: int| 0 <= i < k - 1 && #[trigger] (be32_at(c, 0x12c + 8 * i) as i32) == p.2;
            assert(be32_at(c, 0x12c + 8 * i) as i32 == b.2);
        }
        if b.1 != y {
            let i = choose|i: int| 0 <= i < k - 1 && #[trigger] (be32_at(c, 0x12c + 8 * i + 4) as i32) == p.1;
            assert(be32_at(c, 0x12c + 8 * i + 4) as i32 == b.1);
        }
        if b.3 != y {
            let i = choose|i: int| 0 <= i < k - 1 && #[trigger] (be32_at(c, 0x12c + 8 * i + 4) as i32) == p.3;
            assert(be32_at(c, 0x12c + 8 * i + 4) as i32 == b.3);
        }
    }
}

/// The box of a MAP chunk's area spans its points: `x1` and `x2` are the
/// least and the greatest of the big-endian `i32` stored at `0x12C + 8 * i`,
/// `y1` and `y2` those of the one at `0x12C + 8 * i + 4`, over the points
/// that lie in the chunk (when some point's x is below `i32::MAX`).
pub proof fn lemma_area_box_spans_points(c: Seq<u8>)
    requires
        c.len() >= 0x12c + 16,
        exists|i: int| 0 <= i < pts_present(c) && (#[trigger] be32_at(c, 0x12c + 8 * i) as i32) < i32::MAX,
    ensures
        map_areas(c).len() == 1,
        ({
            let a = map_areas(c)[0];
            &&& forall|i: int|
                0 <= i < pts_present(c) ==> a.x1 <= #[trigger] (be32_at(c, 0x12c + 8 * i) as i32) <= a.x2 && a.y1
                    <= (be32_at(c, 0x12c + 8 * i + 4) as i32) <= a.y2
            &&& exists|i: int| 0 <= i < pts_present(c) && #[trigger] (be32_at(c, 0x12c + 8 * i) as i32) == a.x1
            &&& exists|i: int| 0 <= i < pts_present(c) && #[trigger] (be32_at(c, 0x12c + 8 * i) as i32) == a.x2
            &&& exists|i: int| 0 <= i < pts_present(c) && #[trigger] (be32_at(c, 0x12c + 8 * i + 4) as i32) == a.y1
            &&& exists|i: int| 0 <= i < pts_present(c) && #[trigger] (be32_at(c, 0x12c + 8 * i + 4) as i32) == a.y2
        }),
{
    let k = pts_present(c);
    assert(k >= 1);
    lemma_bbox_bounds(c, k);
    let w = choose|i: int| 0 <= i < pts_present(c) && (#[trigger] be32_at(c, 0x12c + 8 * i) as i32) < i32::MAX;
    assert(bbox_upto(c, k).0 <= be32_at(c, 0x12c + 8 * w) as i32);
}

} // verus!
