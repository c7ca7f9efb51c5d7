//! `.YBM` (YUV BT.601 bitmap) images.
//!
//! Layout: magic `<YUVBMP>` at 0x00, an embedded big-endian BMP info header at
//! 0x20 (size 40, width, height), 256 four-byte YUV palette entries at 0x48,
//! and `width * height` palette indices from 0x448 on, top row first.
//!
//! Converting a YUV entry to RGB is done by a caller-supplied function, so the
//! same decoding serves any colour conversion.

use crate::bytes::{be32_at, read_be32};
use vstd::prelude::*;

verus! {

pub const PALETTE_OFFSET: usize = 0x48;

pub const PIXELS_OFFSET: usize = 0x448;

pub const PALETTE_COLORS: usize = 256;

/// An RGB colour.
#[derive(Debug, Clone, Copy, PartialEq, Eq, Structural)]
pub struct RgbColor {
    pub r: u8,
    pub g: u8,
    pub b: u8,
}

/// Why a `.YBM` image could not be decoded.
#[derive(Debug, Clone, PartialEq, Eq, Structural)]
pub enum YbmError {
    DataTooSmall(usize),
    InvalidMagic,
    InvalidBmpHeader,
    InvalidDimensions(u32, u32),
    IncompletePixelData { expected: usize, actual: usize },
}

impl YbmError {
    /// The text of the error.
    pub fn message(&self) -> (r: String)
        ensures
            r@ == (match *self {
                YbmError::DataTooSmall(n) => "Data too small for YBM header: "@
                    + crate::text::dec_digits(n as nat) + " bytes"@,
                YbmError::InvalidMagic => "Invalid YBM magic header (expected <YUVBMP>)"@,
                YbmError::InvalidBmpHeader => "Invalid embedded BMP header"@,
                YbmError::InvalidDimensions(w, h) => "Invalid image dimensions: "@
                    + crate::text::dec_digits(w as nat) + "x"@ + crate::text::dec_digits(h as nat),
                YbmError::IncompletePixelData { expected, actual } =>
                    "Incomplete pixel data: expected "@ + crate::text::dec_digits(expected as nat)
                    + " bytes, found "@ + crate::text::dec_digits(actual as nat),
            }),
    {
        let mut s = String::new();
        match self {
            YbmError::DataTooSmall(n) => {
                crate::text::push_str(&mut s, "Data too small for YBM header: ");
                crate::text::push_dec(&mut s, *n as u64);
                crate::text::push_str(&mut s, " bytes");
            },
            YbmError::InvalidMagic => {
                crate::text::push_str(&mut s, "Invalid YBM magic header (expected <YUVBMP>)");
            },
            YbmError::InvalidBmpHeader => {
                crate::text::push_str(&mut s, "Invalid embedded BMP header");
            },
            YbmError::InvalidDimensions(w, h) => {
                crate::text::push_str(&mut s, "Invalid image dimensions: ");
                crate::text::push_dec(&mut s, *w as u64);
                crate::text::push_str(&mut s, "x");
                crate::text::push_dec(&mut s, *h as u64);
            },
            YbmError::IncompletePixelData { expected, actual } => {
                crate::text::push_str(&mut s, "Incomplete pixel data: expected ");
                crate::text::push_dec(&mut s, *expected as u64);
                crate::text::push_str(&mut s, " bytes, found ");
                crate::text::push_dec(&mut s, *actual as u64);
            },
        }
        s
    }
}

/// A decoded image: palette and indexed pixels.
#[derive(Debug, Clone, PartialEq, Eq)]
pub struct YbmImage {
    pub width: u32,
    pub height: u32,
    pub palette: Vec<RgbColor>,
    pub pixels: Vec<u8>,
}

/// Whether `d` holds `pat` at `off`.
pub open spec fn holds_at(d: Seq<u8>, off: int, pat: Seq<u8>) -> bool {
    0 <= off && off + pat.len() <= d.len() && d.subrange(off, off + pat.len()) == pat
}

/// Tests whether `d` holds `pat` at `off`.
pub fn bytes_at(d: &[u8], off: usize, pat: &[u8]) -> (r: bool)
    ensures
        r == holds_at(d@, off as int, pat@),
{
    let n = pat.len();
    let dn = d.len();
    if off > dn || n > dn - off {
        return false;
    }
    let mut i: usize = 0;
    while i < n
        invariant
            n == pat@.len(),
            dn == d@.len(),
            off + n <= d@.len(),
            i <= n,
            forall|k: int| 0 <= k < i ==> d@[off + k] == pat@[k],
        decreases n - i,
    {
        if d[off + i] != pat[i] {
            assert(d@.subrange(off as int, off + n)[i as int] != pat@[i as int]);
            return false;
        }
        i += 1;
    }
    assert(d@.subrange(off as int, off + n) =~= pat@);
    true
}

/// The `.YBM` magic, `<YUVBMP>`.
pub open spec fn ybm_magic() -> Seq<u8> {
    seq![0x3cu8, 0x59, 0x55, 0x56, 0x42, 0x4d, 0x50, 0x3e]
}

/// The palette entries of an image, as converted by `conv`.
pub open spec fn palette_ok<F: Fn(u8, u8, u8, u8) -> RgbColor>(
    pal: Seq<RgbColor>,
    d: Seq<u8>,
    base: int,
    count: int,
    conv: F,
) -> bool {
    &&& pal.len() == 256
    &&& forall|i: int|
        0 <= i < count ==> call_ensures(
            conv,
            (d[base + 4 * i], d[base + 4 * i + 1], d[base + 4 * i + 2], d[base + 4 * i + 3]),
            #[trigger] pal[i],
        )
    &&& forall|i: int| count <= i < 256 ==> #[trigger] pal[i] == (RgbColor { r: 0, g: 0, b: 0 })
}

/// Converts `count` palette entries at `base`; the rest of the 256 are black.
pub fn decode_palette<F: Fn(u8, u8, u8, u8) -> RgbColor>(
    d: &[u8],
    base: usize,
    count: usize,
    conv: &F,
) -> (r: Vec<RgbColor>)
    requires
        count <= 256,
        base + 4 * count <= d@.len(),
        forall|a: u8, b: u8, c: u8, e: u8| call_requires(*conv, (a, b, c, e)),
    ensures
        palette_ok(r@, d@, base as int, count as int, *conv),
{
    let mut pal: Vec<RgbColor> = Vec::new();
    let mut i: usize = 0;
    let dn = d.len();
    while i < 256
        invariant
            dn == d@.len(),
            count <= 256,
            base + 4 * count <= d@.len(),
            forall|a: u8, b: u8, c: u8, e: u8| call_requires(*conv, (a, b, c, e)),
            i <= 256,
            pal@.len() == i,
            forall|k: int|
                0 <= k < i && k < count ==> call_ensures(
                    *conv,
                    (d@[base + 4 * k], d@[base + 4 * k + 1], d@[base + 4 * k + 2], d@[base + 4 * k + 3]),
                    #[trigger] pal@[k],
                ),
            forall|k: int| count <= k < i ==> #[trigger] pal@[k] == (RgbColor { r: 0, g: 0, b: 0 }),
        decreases 256 - i,
    {
        if i < count {
            let o = base + 4 * i;
            let c = conv(d[o], d[o + 1], d[o + 2], d[o + 3]);
            pal.push(c);
        } else {
            pal.push(RgbColor { r: 0, g: 0, b: 0 });
        }
        i += 1;
    }
    pal
}

/// The outcome of decoding image `d`, apart from the palette and pixels.
pub open spec fn ybm_error(d: Seq<u8>) -> Option<YbmError> {
    let w = be32_at(d, 0x24);
    let h = be32_at(d, 0x28);
    if d.len() < 0x448 {
        Some(YbmError::DataTooSmall(d.len() as usize))
    } else if !holds_at(d, 0, ybm_magic()) {
        Some(YbmError::InvalidMagic)
    } else if be32_at(d, 0x20) != 40 {
        Some(YbmError::InvalidBmpHeader)
    } else if w == 0 || h == 0 || w > 4096 || h > 4096 {
        Some(YbmError::InvalidDimensions(w, h))
    } else if d.len() - 0x448 < w * h {
        Some(YbmError::IncompletePixelData { expected: (w * h) as usize, actual: (d.len() - 0x448) as usize })
    } else {
        None
    }
}

impl YbmImage {
    /// The image's fields agree with each other: 256 colours, `width * height`
    /// pixels, dimensions within 1..=4096.
    pub open spec fn wf(&self) -> bool {
        &&& self.palette@.len() == 256
        &&& 1 <= self.width <= 4096
        &&& 1 <= self.height <= 4096
        &&& self.pixels@.len() == self.width * self.height
    }

    /// Decodes a `.YBM` image, converting palette entries with `conv`.
    pub fn decode<F: Fn(u8, u8, u8, u8) -> RgbColor>(bytes: &[u8], conv: F) -> (r: Result<Self, YbmError>)
        requires
            forall|a: u8, b: u8, c: u8, e: u8| call_requires(conv, (a, b, c, e)),
        ensures
            match ybm_error(bytes@) {
                Some(e) => r == Err::<Self, YbmError>(e),
                None => r matches Ok(img) && img.wf()
                    && img.width == be32_at(bytes@, 0x24)
                    && img.height == be32_at(bytes@, 0x28)
                    && palette_ok(img.palette@, bytes@, 0x48, 256, conv)
                    && img.pixels@ == bytes@.subrange(0x448, 0x448 + img.width * img.height),
            },
    {
        let n = bytes.len();
        if n < PIXELS_OFFSET {
            return Err(YbmError::DataTooSmall(n));
        }
        let magic: [u8; 8] = [0x3c, 0x59, 0x55, 0x56, 0x42, 0x4d, 0x50, 0x3e];
        assert(magic@ =~= ybm_magic());
        if !bytes_at(bytes, 0, &magic) {
            return Err(YbmError::InvalidMagic);
        }
        if read_be32(bytes, 0x20) != 40 {
            return Err(YbmError::InvalidBmpHeader);
        }
        let width = read_be32(bytes, 0x24);
        let height = read_be32(bytes, 0x28);
        if width == 0 || height == 0 || width > 4096 || height > 4096 {
            return Err(YbmError::InvalidDimensions(width, height));
        }
        let palette = decode_palette(bytes, PALETTE_OFFSET, 256, &conv);
        assert(width * height <= 4096 * 4096) by (nonlinear_arith)
            requires
                width <= 4096,
                height <= 4096,
        ;
        let expected: usize = (width * height) as usize;
        let actual = n - PIXELS_OFFSET;
        if actual < expected {
            return Err(YbmError::IncompletePixelData { expected, actual });
        }
        let pixels = crate::text::copy_bytes(bytes, PIXELS_OFFSET, PIXELS_OFFSET + expected);
        Ok(YbmImage { width, height, palette, pixels })
    }

    /// RGBA bytes of the image, four per pixel, alpha 255, rows top first.
    pub fn to_rgba8(&self) -> (r: Vec<u8>)
        requires
            self.palette@.len() == 256,
        ensures
            r@ == rgba_of(self.palette@, self.pixels@),
            r@.len() == 4 * self.pixels@.len(),
            forall|i: int|
                0 <= i < self.pixels@.len() ==> {
                    let c = self.palette@[self.pixels@[i] as int];
                    &&& #[trigger] r@[4 * i] == c.r
                    &&& r@[4 * i + 1] == c.g
                    &&& r@[4 * i + 2] == c.b
                    &&& r@[4 * i + 3] == 255
                },
    {
        proof {
            lemma_rgba_per_pixel(self.palette@, self.pixels@);
        }
        let mut out: Vec<u8> = Vec::new();
        let mut i: usize = 0;
        while i < self.pixels.len()
            invariant
                self.palette@.len() == 256,
                i <= self.pixels@.len(),
                out@ == rgba_of(self.palette@, self.pixels@.take(i as int)),
            decreases self.pixels@.len() - i,
        {
            let c = self.palette[self.pixels[i] as usize];
            out.push(c.r);
            out.push(c.g);
            out.push(c.b);
            out.push(255);
            assert(self.pixels@.take(i + 1).drop_last() =~= self.pixels@.take(i as int));
            i += 1;
        }
        assert(self.pixels@.take(self.pixels@.len() as int) =~= self.pixels@);
        out
    }

    /// RGB bytes of the image, three per pixel, rows top first.
    pub fn to_rgb8(&self) -> (r: Vec<u8>)
        requires
            self.palette@.len() == 256,
        ensures
            r@ == rgb_of(self.palette@, self.pixels@),
    {
        let mut out: Vec<u8> = Vec::new();
        let mut i: usize = 0;
        while i < self.pixels.len()
            invariant
                self.palette@.len() == 256,
                i <= self.pixels@.len(),
                out@ == rgb_of(self.palette@, self.pixels@.take(i as int)),
            decreases self.pixels@.len() - i,
        {
            let c = self.palette[self.pixels[i] as usize];
            out.push(c.r);
            out.push(c.g);
            out.push(c.b);
            assert(self.pixels@.take(i + 1).drop_last() =~= self.pixels@.take(i as int));
            i += 1;
        }
        assert(self.pixels@.take(self.pixels@.len() as int) =~= self.pixels@);
        out
    }
}

/// RGBA expansion of indexed pixels.
pub open spec fn rgba_of(pal: Seq<RgbColor>, px: Seq<u8>) -> Seq<u8>
    decreases px.len(),
{
    if px.len() == 0 {
        seq![]
    } else {
        let c = pal[px.last() as int];
        rgba_of(pal, px.drop_last()) + seq![c.r, c.g, c.b, 255u8]
    }
}

/// RGB expansion of indexed pixels.
pub open spec fn rgb_of(pal: Seq<RgbColor>, px: Seq<u8>) -> Seq<u8>
    decreases px.len(),
{
    if px.len() == 0 {
        seq![]
    } else {
        let c = pal[px.last() as int];
        rgb_of(pal, px.drop_last()) + seq![c.r, c.g, c.b]
    }
}


/// Byte `c` of pixel (`x`, `y`) of an RGBA canvas `cw` pixels wide.
pub open spec fn canvas_byte(d: Seq<u8>, cw: int, y: int, x: int, c: int) -> u8 {
    d[(y * cw + x) * 4 + c]
}

/// Whether canvas pixel (`tx`, `ty`) is covered by a drawn pixel of the image
/// placed at (`dx`, `dy`): inside the image and not of the transparent colour.
pub open spec fn blit_covers(
    w: int,
    h: int,
    px: Seq<u8>,
    dx: int,
    dy: int,
    transparent: Option<u8>,
    ty: int,
    tx: int,
) -> bool {
    let sy = ty - dy;
    let sx = tx - dx;
    &&& 0 <= sy < h
    &&& 0 <= sx < w
    &&& !(transparent matches Some(t) && px[sy * w + sx] == t)
}

/// Byte `c` (red, green, blue, alpha) of a palette colour, alpha 255.
pub open spec fn color_byte(col: RgbColor, c: int) -> u8 {
    if c == 0 {
        col.r
    } else if c == 1 {
        col.g
    } else if c == 2 {
        col.b
    } else {
        255
    }
}

/// The byte a blit leaves at canvas pixel (`tx`, `ty`), channel `c`.
pub open spec fn blit_byte(
    img: YbmImage,
    old: Seq<u8>,
    cw: int,
    dx: int,
    dy: int,
    transparent: Option<u8>,
    ty: int,
    tx: int,
    c: int,
) -> u8 {
    if blit_covers(img.width as int, img.height as int, img.pixels@, dx, dy, transparent, ty, tx) {
        color_byte(
            img.palette@[img.pixels@[(ty - dy) * img.width + (tx - dx)] as int],
            c,
        )
    } else {
        canvas_byte(old, cw, ty, tx, c)
    }
}

/// Pixels of a row-major grid of width `cw` have distinct indices.
proof fn lemma_grid_injective(cw: int, y1: int, x1: int, y2: int, x2: int)
    requires
        0 <= x1 < cw,
        0 <= x2 < cw,
        0 <= y1,
        0 <= y2,
        y1 != y2 || x1 != x2,
    ensures
        y1 * cw + x1 != y2 * cw + x2,
{
    if y1 < y2 {
        assert((y1 + 1) * cw <= y2 * cw) by (nonlinear_arith)
            requires
                y1 + 1 <= y2,
                cw > 0,
        ;
        assert((y1 + 1) * cw == y1 * cw + cw) by (nonlinear_arith);
    } else if y2 < y1 {
        assert((y2 + 1) * cw <= y1 * cw) by (nonlinear_arith)
            requires
                y2 + 1 <= y1,
                cw > 0,
        ;
        assert((y2 + 1) * cw == y2 * cw + cw) by (nonlinear_arith);
    }
}

/// A pixel of a `cw` x `ch` grid lies before index `cw * ch`.
proof fn lemma_grid_bound(cw: int, ch: int, y: int, x: int)
    requires
        0 <= x < cw,
        0 <= y < ch,
    ensures
        0 <= y * cw + x < cw * ch,
{
    assert(0 <= y * cw) by (nonlinear_arith)
        requires
            0 <= y,
            0 <= cw,
    ;
    assert((y + 1) * cw <= ch * cw) by (nonlinear_arith)
        requires
            y + 1 <= ch,
            cw > 0,
    ;
    assert((y + 1) * cw == y * cw + cw) by (nonlinear_arith);
    assert(ch * cw == cw * ch) by (nonlinear_arith);
}

impl YbmImage {
    /// Draws the image onto an RGBA canvas `canvas_width` x `canvas_height`
    /// with its top-left corner at (`dst_x`, `dst_y`). Pixels falling outside
    /// the canvas and pixels of colour `transparent_idx` are skipped; drawn
    /// pixels get alpha 255.
    pub fn blit_to_rgba_canvas(
        &self,
        canvas: &mut [u8],
        canvas_width: u32,
        canvas_height: u32,
        dst_x: i32,
        dst_y: i32,
        transparent_idx: Option<u8>,
    )
        requires
            self.wf(),
            (canvas_width as int) * (canvas_height as int) * 4 <= old(canvas)@.len(),
            (canvas_width as int) * (canvas_height as int) * 4 <= u32::MAX + 1,
            dst_x + self.width <= i32::MAX + 1,
            dst_y + self.height <= i32::MAX + 1,
        ensures
            final(canvas)@.len() == old(canvas)@.len(),
            forall|ty: int, tx: int, c: int|
                0 <= ty < canvas_height && 0 <= tx < canvas_width && 0 <= c < 4 ==> #[trigger] canvas_byte(
                    final(canvas)@,
                    canvas_width as int,
                    ty,
                    tx,
                    c,
                ) == blit_byte(
                    *self,
                    old(canvas)@,
                    canvas_width as int,
                    dst_x as int,
                    dst_y as int,
                    transparent_idx,
                    ty,
                    tx,
                    c,
                ),
            forall|k: int|
                (canvas_width as int) * (canvas_height as int) * 4 <= k < final(canvas)@.len()
                    ==> #[trigger] final(canvas)@[k] == old(canvas)@[k],
            forall|sy: int, sx: int, c: int|
                0 <= sy < self.height && 0 <= sx < self.width && 0 <= dst_y + sy < canvas_height && 0 <= dst_x
                    + sx < canvas_width && 0 <= c < 4 && !(transparent_idx matches Some(t)
                    && self.pixels@[sy * self.width + sx] == t) ==> #[trigger] canvas_byte(
                    final(canvas)@,
                    canvas_width as int,
                    dst_y + sy,
                    dst_x + sx,
                    c,
                ) == color_byte(self.palette@[self.pixels@[sy * self.width + sx] as int], c),
            forall|ty: int, tx: int, c: int|
                0 <= ty < canvas_height && 0 <= tx < canvas_width && 0 <= c < 4 && !blit_covers(
                    self.width as int,
                    self.height as int,
                    self.pixels@,
                    dst_x as int,
                    dst_y as int,
                    transparent_idx,
                    ty,
                    tx,
                ) ==> #[trigger] canvas_byte(final(canvas)@, canvas_width as int, ty, tx, c) == canvas_byte(
                    old(canvas)@,
                    canvas_width as int,
                    ty,
                    tx,
                    c,
                ),
    {
        let ghost start = canvas@;
        let ghost cw = canvas_width as int;
        let ghost ch = canvas_height as int;
        let ghost dx = dst_x as int;
        let ghost dy = dst_y as int;
        let w = self.width;
        let h = self.height;
        proof {
            if cw > 0 && ch > 0 {
                assert(cw <= cw * ch) by (nonlinear_arith)
                    requires
                        ch >= 1,
                        cw >= 0,
                ;
                assert(ch <= cw * ch) by (nonlinear_arith)
                    requires
                        cw >= 1,
                        ch >= 0,
                ;
            }
        }
        let mut sy: u32 = 0;
        while sy < h
            invariant
                self.wf(),
                w == self.width,
                h == self.height,
                cw == canvas_width,
                ch == canvas_height,
                dx == dst_x,
                dy == dst_y,
                cw * ch * 4 <= start.len(),
                cw * ch * 4 <= u32::MAX + 1,
                cw > 0 && ch > 0 ==> cw <= cw * ch && ch <= cw * ch,
                dst_x + w <= i32::MAX + 1,
                dst_y + h <= i32::MAX + 1,
                canvas@.len() == start.len(),
                sy <= h,
                forall|ty: int, tx: int, c: int|
                    0 <= ty < ch && 0 <= tx < cw && 0 <= c < 4 ==> #[trigger] canvas_byte(
                        canvas@,
                        cw,
                        ty,
                        tx,
                        c,
                    ) == if ty - dy < sy {
                        blit_byte(*self, start, cw, dx, dy, transparent_idx, ty, tx, c)
                    } else {
                        canvas_byte(start, cw, ty, tx, c)
                    },
                forall|k: int| cw * ch * 4 <= k < canvas@.len() ==> #[trigger] canvas@[k] == start[k],
            decreases h - sy,
        {
            let ty: i32 = dst_y + sy as i32;
            if ty < 0 || ty >= canvas_height as i32 {
                sy += 1;
                continue;
            }
            let mut sx: u32 = 0;
            while sx < w
                invariant
                    self.wf(),
                    w == self.width,
                    h == self.height,
                    cw == canvas_width,
                    ch == canvas_height,
                    dx == dst_x,
                    dy == dst_y,
                    cw * ch * 4 <= start.len(),
                    cw * ch * 4 <= u32::MAX + 1,
                    cw > 0 && ch > 0 ==> cw <= cw * ch && ch <= cw * ch,
                    dst_x + w <= i32::MAX + 1,
                    sy < h,
                    ty == dy + sy,
                    0 <= ty < ch,
                    canvas@.len() == start.len(),
                    sx <= w,
                    forall|yy: int, tx: int, c: int|
                        0 <= yy < ch && 0 <= tx < cw && 0 <= c < 4 ==> #[trigger] canvas_byte(
                            canvas@,
                            cw,
                            yy,
                            tx,
                            c,
                        ) == if yy - dy < sy || (yy == ty && tx - dx < sx) {
                            blit_byte(*self, start, cw, dx, dy, transparent_idx, yy, tx, c)
                        } else {
                            canvas_byte(start, cw, yy, tx, c)
                        },
                    forall|k: int| cw * ch * 4 <= k < canvas@.len() ==> #[trigger] canvas@[k] == start[k],
                decreases w - sx,
            {
                let tx: i32 = dst_x + sx as i32;
                let ghost before = canvas@;
                if tx >= 0 && tx < canvas_width as i32 {
                    proof {
                        lemma_grid_bound(w as int, h as int, sy as int, sx as int);
                        assert(w * h <= 4096 * 4096) by (nonlinear_arith)
                            requires
                                w <= 4096,
                                h <= 4096,
                        ;
                        assert(sy * w <= sy * w + sx);
                    }
                    let si = (sy * w + sx) as usize;
                    let ci = self.pixels[si];
                    let skip = match transparent_idx {
                        Some(t) => ci == t,
                        None => false,
                    };
                    if !skip {
                        let col = self.palette[ci as usize];
                        proof {
                            lemma_grid_bound(cw, ch, ty as int, tx as int);
                        }
                        let base = ((ty as u32 * canvas_width + tx as u32) * 4) as usize;
                        assert(base == (ty * cw + tx) * 4);
                        canvas[base] = col.r;
                        canvas[base + 1] = col.g;
                        canvas[base + 2] = col.b;
                        canvas[base + 3] = 255;
                    }
                    assert forall|yy: int, xx: int, c: int|
                        0 <= yy < ch && 0 <= xx < cw && 0 <= c < 4 implies #[trigger] canvas_byte(
                        canvas@,
                        cw,
                        yy,
                        xx,
                        c,
                    ) == if yy - dy < sy || (yy == ty && xx - dx < sx + 1) {
                        blit_byte(*self, start, cw, dx, dy, transparent_idx, yy, xx, c)
                    } else {
                        canvas_byte(start, cw, yy, xx, c)
                    } by {
                        lemma_grid_bound(cw, ch, yy, xx);
                        if yy == ty && xx == tx {
                            assert(canvas_byte(before, cw, yy, xx, c) == canvas_byte(start, cw, yy, xx, c));
                        } else {
                            lemma_grid_injective(cw, yy, xx, ty as int, tx as int);
                            assert(canvas_byte(before, cw, yy, xx, c) == if yy - dy < sy || (yy
                                == ty && xx - dx < sx) {
                                blit_byte(*self, start, cw, dx, dy, transparent_idx, yy, xx, c)
                            } else {
                                canvas_byte(start, cw, yy, xx, c)
                            });
                        }
                    }
                } else {
                    assert forall|yy: int, xx: int, c: int|
                        0 <= yy < ch && 0 <= xx < cw && 0 <= c < 4 implies #[trigger] canvas_byte(
                        canvas@,
                        cw,
                        yy,
                        xx,
                        c,
                    ) == if yy - dy < sy || (yy == ty && xx - dx < sx + 1) {
                        blit_byte(*self, start, cw, dx, dy, transparent_idx, yy, xx, c)
                    } else {
                        canvas_byte(start, cw, yy, xx, c)
                    } by {
                        assert(canvas_byte(before, cw, yy, xx, c) == if yy - dy < sy || (yy == ty
                            && xx - dx < sx) {
                            blit_byte(*self, start, cw, dx, dy, transparent_idx, yy, xx, c)
                        } else {
                            canvas_byte(start, cw, yy, xx, c)
                        });
                    }
                }
                sx += 1;
            }
            assert forall|yy: int, xx: int, c: int|
                0 <= yy < ch && 0 <= xx < cw && 0 <= c < 4 implies #[trigger] canvas_byte(
                canvas@,
                cw,
                yy,
                xx,
                c,
            ) == if yy - dy < sy + 1 {
                blit_byte(*self, start, cw, dx, dy, transparent_idx, yy, xx, c)
            } else {
                canvas_byte(start, cw, yy, xx, c)
            } by {
                if yy == ty && xx - dx >= w {
                    assert(!blit_covers(w as int, h as int, self.pixels@, dx, dy, transparent_idx, yy, xx));
                }
                if yy == ty && xx - dx < 0 {
                    assert(!blit_covers(w as int, h as int, self.pixels@, dx, dy, transparent_idx, yy, xx));
                }
            }
            sy += 1;
        }
        assert forall|ty: int, tx: int, c: int|
            0 <= ty < ch && 0 <= tx < cw && 0 <= c < 4 implies #[trigger] canvas_byte(
            canvas@,
            cw,
            ty,
            tx,
            c,
        ) == blit_byte(*self, start, cw, dx, dy, transparent_idx, ty, tx, c) by {
            if ty - dy >= h {
                assert(!blit_covers(w as int, h as int, self.pixels@, dx, dy, transparent_idx, ty, tx));
            }
        }
        assert forall|py: int, px: int, c: int|
            0 <= py < h && 0 <= px < w && 0 <= dy + py < ch && 0 <= dx + px < cw && 0 <= c < 4 && !(
            transparent_idx matches Some(t) && self.pixels@[py * w + px] == t) implies #[trigger] canvas_byte(
            canvas@,
            cw,
            dy + py,
            dx + px,
            c,
        ) == color_byte(self.palette@[self.pixels@[py * w + px] as int], c) by {
            assert(canvas_byte(canvas@, cw, dy + py, dx + px, c) == blit_byte(
                *self,
                start,
                cw,
                dx,
                dy,
                transparent_idx,
                dy + py,
                dx + px,
                c,
            ));
            lemma_blit_per_pixel(*self, start, cw, dx, dy, transparent_idx, py, px);
        }
    }
}

/// `to_rgba8` gives four bytes per pixel, in pixel order: pixel `i`'s
/// palette colour, then 255 for full opacity.
pub proof fn lemma_rgba_per_pixel(pal: Seq<RgbColor>, px: Seq<u8>)
    ensures
        rgba_of(pal, px).len() == 4 * px.len(),
        forall|i: int|
            0 <= i < px.len() ==> {
                let c = pal[px[i] as int];
                &&& #[trigger] rgba_of(pal, px)[4 * i] == c.r
                &&& rgba_of(pal, px)[4 * i + 1] == c.g
                &&& rgba_of(pal, px)[4 * i + 2] == c.b
                &&& rgba_of(pal, px)[4 * i + 3] == 255
            },
    decreases px.len(),
{
    if px.len() > 0 {
        let pre = px.drop_last();
        lemma_rgba_per_pixel(pal, pre);
        assert forall|i: int| 0 <= i < px.len() implies {
            let c = pal[px[i] as int];
            &&& #[trigger] rgba_of(pal, px)[4 * i] == c.r
            &&& rgba_of(pal, px)[4 * i + 1] == c.g
            &&& rgba_of(pal, px)[4 * i + 2] == c.b
            &&& rgba_of(pal, px)[4 * i + 3] == 255
        } by {
            if i < pre.len() {
                assert(px[i] == pre[i]);
                assert(rgba_of(pal, pre)[4 * i] == pal[pre[i] as int].r);
            }
        }
    }
}

/// Blitting an image at (`dx`, `dy`) sets each drawn image pixel (`sx`,
/// `sy`), one not of the transparent colour, to its palette colour with
/// alpha 255 at canvas pixel (`dx + sx`, `dy + sy`); `blit_byte` keeps every
/// canvas pixel no drawn image pixel lands on.
pub proof fn lemma_blit_per_pixel(
    img: YbmImage,
    before: Seq<u8>,
    cw: int,
    dx: int,
    dy: int,
    transparent: Option<u8>,
    sy: int,
    sx: int,
)
    requires
        img.wf(),
        0 <= sy < img.height,
        0 <= sx < img.width,
        !(transparent matches Some(t) && img.pixels@[sy * img.width + sx] == t),
    ensures
        ({
            let col = img.palette@[img.pixels@[sy * img.width + sx] as int];
            &&& blit_byte(img, before, cw, dx, dy, transparent, dy + sy, dx + sx, 0) == col.r
            &&& blit_byte(img, before, cw, dx, dy, transparent, dy + sy, dx + sx, 1) == col.g
            &&& blit_byte(img, before, cw, dx, dy, transparent, dy + sy, dx + sx, 2) == col.b
            &&& blit_byte(img, before, cw, dx, dy, transparent, dy + sy, dx + sx, 3) == 255
        }),
        forall|ty: int, tx: int, c: int|
            !blit_covers(img.width as int, img.height as int, img.pixels@, dx, dy, transparent, ty, tx)
                ==> #[trigger] blit_byte(img, before, cw, dx, dy, transparent, ty, tx, c) == canvas_byte(
                before,
                cw,
                ty,
                tx,
                c,
            ),
{
    assert(dy + sy - dy == sy && dx + sx - dx == sx);
}

} // verus!
