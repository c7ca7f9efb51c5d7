//! VCD 2.0 segment play items (`SEGMENT/ITEMnnnn.DAT`) and still-picture menus.
//!
//! Segment item ids in the PSD run from 1000 on; id 1000 is `ITEM0001.DAT`.
//! Still pictures are usually 704x576 (PAL) and are shown on the 352x288 canvas.

use crate::text::{padded_text, push_padded, push_str};
use vstd::prelude::*;

verus! {

broadcast use vstd::string::group_string_axioms;

pub const CANVAS_WIDTH: usize = 352;

pub const CANVAS_HEIGHT: usize = 288;

/// The path of a segment item's file below the disc root, for ids from 1000 on.
pub open spec fn segment_path(item_id: u16) -> Option<Seq<char>> {
    if item_id < 1000 {
        None
    } else {
        Some("SEGMENT/ITEM"@ + padded_text((item_id - 999) as nat, 4) + ".DAT"@)
    }
}

/// The path, relative to the disc root and with `/` between its parts, of the
/// file that holds segment item `item_id` (1000 gives `SEGMENT/ITEM0001.DAT`).
/// Finding the file on disc, whatever the case of its name, is the caller's part.
pub fn resolve_segment_path(item_id: u16) -> (r: Option<String>)
    ensures
        match r {
            Some(p) => segment_path(item_id) == Some(p@),
            None => segment_path(item_id) is None,
        },
{
    if item_id < 1000 {
        return None;
    }
    let mut s = String::new();
    push_str(&mut s, "SEGMENT/ITEM");
    push_padded(&mut s, (item_id - 999) as u64, 4);
    push_str(&mut s, ".DAT");
    Some(s)
}

/// Byte `c` of canvas pixel (`x`, `y`) in an RGBA buffer 352 pixels wide.
pub open spec fn canvas_at(d: Seq<u8>, y: int, x: int, c: int) -> u8 {
    d[(y * 352 + x) * 4 + c]
}

/// Byte `c` of pixel (`x`, `y`) in an RGBA buffer 704 pixels wide.
pub open spec fn wide_at(s: Seq<u8>, y: int, x: int, c: int) -> int {
    s[(y * 704 + x) * 4 + c] as int
}

/// Channel `c` of canvas pixel (`x`, `y`) after 2x2 averaging of a 704x576 picture.
pub open spec fn average_2x2(s: Seq<u8>, y: int, x: int, c: int) -> u8 {
    ((wide_at(s, 2 * y, 2 * x, c) + wide_at(s, 2 * y, 2 * x + 1, c) + wide_at(s, 2 * y + 1, 2 * x, c)
        + wide_at(s, 2 * y + 1, 2 * x + 1, c)) / 4) as u8
}

/// `new` is `old` with the 352x288 canvas area filled from the 704x576 picture `s`.
pub open spec fn downsampled(s: Seq<u8>, old: Seq<u8>, new: Seq<u8>) -> bool {
    &&& new.len() == old.len()
    &&& forall|y: int, x: int, c: int|
        0 <= y < 288 && 0 <= x < 352 && 0 <= c < 3 ==> #[trigger] canvas_at(new, y, x, c)
            == average_2x2(s, y, x, c)
    &&& forall|y: int, x: int| 0 <= y < 288 && 0 <= x < 352 ==> #[trigger] canvas_at(new, y, x, 3) == 255
    &&& forall|k: int| 352 * 288 * 4 <= k < new.len() ==> #[trigger] new[k] == old[k]
}

/// A 2x2 block of one colour averages to that colour.
pub proof fn lemma_average_uniform(s: Seq<u8>, y: int, x: int, c: int, v: u8)
    requires
        wide_at(s, 2 * y, 2 * x, c) == v,
        wide_at(s, 2 * y, 2 * x + 1, c) == v,
        wide_at(s, 2 * y + 1, 2 * x, c) == v,
        wide_at(s, 2 * y + 1, 2 * x + 1, c) == v,
    ensures
        average_2x2(s, y, x, c) == v,
{
    assert((4 * (v as int)) / 4 == v as int);
}

/// Scales a 704x576 RGBA picture down to the 352x288 canvas by averaging each
/// 2x2 block of pixels; alpha becomes 255.
pub fn downsample_704x576_to_352x288(src: &[u8], dst: &mut [u8])
    requires
        src@.len() >= 704 * 576 * 4,
        old(dst)@.len() >= 352 * 288 * 4,
    ensures
        downsampled(src@, old(dst)@, final(dst)@),
{
    let ghost start = dst@;
    let mut y: usize = 0;
    while y < 288
        invariant
            src@.len() >= 704 * 576 * 4,
            dst@.len() == start.len(),
            start.len() >= 352 * 288 * 4,
            y <= 288,
            forall|yy: int, x: int, c: int|
                0 <= yy < y && 0 <= x < 352 && 0 <= c < 3 ==> #[trigger] canvas_at(dst@, yy, x, c)
                    == average_2x2(src@, yy, x, c),
            forall|yy: int, x: int| 0 <= yy < y && 0 <= x < 352 ==> #[trigger] canvas_at(dst@, yy, x, 3) == 255,
            forall|k: int| y * 352 * 4 <= k < dst@.len() ==> #[trigger] dst@[k] == start[k],
        decreases 288 - y,
    {
        let mut x: usize = 0;
        while x < 352
            invariant
                src@.len() >= 704 * 576 * 4,
                dst@.len() == start.len(),
                start.len() >= 352 * 288 * 4,
                y < 288,
                x <= 352,
                forall|yy: int, xx: int, c: int|
                    (0 <= yy < y && 0 <= xx < 352 || yy == y && 0 <= xx < x) && 0 <= c < 3
                        ==> #[trigger] canvas_at(dst@, yy, xx, c) == average_2x2(src@, yy, xx, c),
                forall|yy: int, xx: int|
                    0 <= yy < y && 0 <= xx < 352 || yy == y && 0 <= xx < x ==> #[trigger] canvas_at(
                        dst@,
                        yy,
                        xx,
                        3,
                    ) == 255,
                forall|k: int| (y * 352 + x) * 4 <= k < dst@.len() ==> #[trigger] dst@[k] == start[k],
            decreases 352 - x,
        {
            let sy = y * 2;
            let sx = x * 2;
            let i00 = (sy * 704 + sx) * 4;
            let i01 = (sy * 704 + sx + 1) * 4;
            let i10 = ((sy + 1) * 704 + sx) * 4;
            let i11 = ((sy + 1) * 704 + sx + 1) * 4;
            let d = (y * 352 + x) * 4;
            let ghost before = dst@;
            let mut c: usize = 0;
            while c < 3
                invariant
                    src@.len() >= 704 * 576 * 4,
                    dst@.len() == start.len(),
                    start.len() >= 352 * 288 * 4,
                    y < 288,
                    x < 352,
                    sy == 2 * y,
                    sx == 2 * x,
                    i00 == (sy * 704 + sx) * 4,
                    i01 == (sy * 704 + sx + 1) * 4,
                    i10 == ((sy + 1) * 704 + sx) * 4,
                    i11 == ((sy + 1) * 704 + sx + 1) * 4,
                    d == (y * 352 + x) * 4,
                    c <= 3,
                    forall|k: int| 0 <= k < dst@.len() && (k < d || k >= d + c) ==> #[trigger] dst@[k] == before[k],
                    forall|cc: int| 0 <= cc < c ==> #[trigger] canvas_at(dst@, y as int, x as int, cc)
                        == average_2x2(src@, y as int, x as int, cc),
                decreases 3 - c,
            {
                let sum: u32 = src[i00 + c] as u32 + src[i01 + c] as u32 + src[i10 + c] as u32
                    + src[i11 + c] as u32;
                let v = (sum / 4) as u8;
                assert(v == average_2x2(src@, y as int, x as int, c as int));
                let ghost prev = dst@;
                dst[d + c] = v;
                assert forall|cc: int| 0 <= cc < c + 1 implies #[trigger] canvas_at(
                    dst@,
                    y as int,
                    x as int,
                    cc,
                ) == average_2x2(src@, y as int, x as int, cc) by {
                    if cc < c {
                        assert(canvas_at(prev, y as int, x as int, cc) == average_2x2(
                            src@,
                            y as int,
                            x as int,
                            cc,
                        ));
                    }
                }
                c += 1;
            }
            let ghost mid = dst@;
            dst[d + 3] = 255;
            assert forall|yy: int, xx: int, cc: int|
                (0 <= yy < y && 0 <= xx < 352 || yy == y && 0 <= xx < x + 1) && 0 <= cc < 3 implies #[trigger] canvas_at(
                dst@,
                yy,
                xx,
                cc,
            ) == average_2x2(src@, yy, xx, cc) by {
                if yy == y && xx == x {
                    assert(canvas_at(mid, yy, xx, cc) == average_2x2(src@, yy, xx, cc));
                } else {
                    assert(canvas_at(before, yy, xx, cc) == average_2x2(src@, yy, xx, cc));
                }
            }
            assert forall|yy: int, xx: int|
                0 <= yy < y && 0 <= xx < 352 || yy == y && 0 <= xx < x + 1 implies #[trigger] canvas_at(
                dst@,
                yy,
                xx,
                3,
            ) == 255 by {
                if !(yy == y && xx == x) {
                    assert(canvas_at(before, yy, xx, 3) == 255);
                }
            }
            x += 1;
        }
        y += 1;
    }
}

/// The source row sampled for canvas row `y` when scaling a picture `h` rows high.
pub open spec fn nearest_row(y: int, h: int) -> int {
    let r = (y * h) / 288;
    let last = if h > 0 {
        h - 1
    } else {
        0
    };
    if r < last {
        r
    } else {
        last
    }
}

/// The source column sampled for canvas column `x` when scaling a picture `w` wide.
pub open spec fn nearest_col(x: int, w: int) -> int {
    let r = (x * w) / 352;
    let last = if w > 0 {
        w - 1
    } else {
        0
    };
    if r < last {
        r
    } else {
        last
    }
}

/// The index of the source pixel copied to canvas pixel (`x`, `y`).
pub open spec fn nearest_index(y: int, x: int, w: int, h: int) -> int {
    (nearest_row(y, h) * w + nearest_col(x, w)) * 4
}

/// Whether canvas pixel (`x`, `y`) is copied: both the source pixel and the
/// canvas pixel lie within their buffers.
pub open spec fn nearest_copied(y: int, x: int, w: int, h: int, src_len: int, dst_len: int) -> bool {
    nearest_index(y, x, w, h) + 4 <= src_len && (y * 352 + x) * 4 + 4 <= dst_len
}

/// `new` is `old` with each copied canvas pixel taken from the nearest source pixel.
pub open spec fn nearest_scaled(w: int, h: int, s: Seq<u8>, old: Seq<u8>, new: Seq<u8>) -> bool {
    &&& new.len() == old.len()
    &&& forall|y: int, x: int, c: int|
        0 <= y < 288 && 0 <= x < 352 && 0 <= c < 4 && (y * 352 + x) * 4 + 4 <= new.len() ==> #[trigger] canvas_at(
            new,
            y,
            x,
            c,
        ) == if nearest_copied(y, x, w, h, s.len() as int, new.len() as int) {
            s[nearest_index(y, x, w, h) + c]
        } else {
            canvas_at(old, y, x, c)
        }
    &&& forall|k: int| 352 * 288 * 4 <= k < new.len() ==> #[trigger] new[k] == old[k]
}

/// What `blit_segment_to_canvas` makes of the canvas.
pub open spec fn segment_blitted(w: u32, h: u32, s: Seq<u8>, old: Seq<u8>, new: Seq<u8>) -> bool {
    if w == 352 && h == 288 {
        new == s
    } else if w == 704 && h == 576 {
        downsampled(s, old, new)
    } else {
        nearest_scaled(w as int, h as int, s, old, new)
    }
}

/// Whether the nearest-neighbour scaling of a `w` x `h` picture stays within
/// 32-bit arithmetic.
pub open spec fn scaling_fits(w: u32, h: u32) -> bool {
    &&& w * 352 <= u32::MAX
    &&& h * 288 <= u32::MAX
    &&& (w * h + w) * 4 <= u32::MAX
}

/// Shows a decoded RGBA picture of `src_w` x `src_h` pixels on the 352x288
/// canvas: copied when it has the canvas size, averaged down from 704x576, and
/// scaled by nearest neighbour otherwise.
pub fn blit_segment_to_canvas(src_w: u32, src_h: u32, src_rgba: &[u8], dst_canvas: &mut [u8])
    requires
        src_w == 352 && src_h == 288 ==> src_rgba@.len() == old(dst_canvas)@.len(),
        src_w == 704 && src_h == 576 ==> src_rgba@.len() >= 704 * 576 * 4 && old(dst_canvas)@.len()
            >= 352 * 288 * 4,
        !(src_w == 352 && src_h == 288) && !(src_w == 704 && src_h == 576) ==> scaling_fits(
            src_w,
            src_h,
        ),
    ensures
        segment_blitted(src_w, src_h, src_rgba@, old(dst_canvas)@, final(dst_canvas)@),
{
    if src_w == 352 && src_h == 288 {
        let n = dst_canvas.len();
        let mut i: usize = 0;
        while i < n
            invariant
                n == dst_canvas@.len(),
                n == src_rgba@.len(),
                i <= n,
                forall|k: int| 0 <= k < i ==> #[trigger] dst_canvas@[k] == src_rgba@[k],
            decreases n - i,
        {
            dst_canvas[i] = src_rgba[i];
            i += 1;
        }
        assert(dst_canvas@ =~= src_rgba@);
    } else if src_w == 704 && src_h == 576 {
        downsample_704x576_to_352x288(src_rgba, dst_canvas);
    } else {
        nearest_blit(src_w, src_h, src_rgba, dst_canvas);
    }
}

fn nearest_blit(w: u32, h: u32, src: &[u8], dst: &mut [u8])
    requires
        scaling_fits(w, h),
    ensures
        nearest_scaled(w as int, h as int, src@, old(dst)@, final(dst)@),
{
    let ghost start = dst@;
    let n = dst.len();
    let m = src.len();
    let last_row: u32 = if h > 0 {
        h - 1
    } else {
        0
    };
    let last_col: u32 = if w > 0 {
        w - 1
    } else {
        0
    };
    let mut y: usize = 0;
    while y < 288
        invariant
            scaling_fits(w, h),
            n == dst@.len(),
            m == src@.len(),
            n == start.len(),
            last_row == (if h > 0 {
                h - 1
            } else {
                0
            }),
            last_col == (if w > 0 {
                w - 1
            } else {
                0
            }),
            y <= 288,
            forall|yy: int, x: int, c: int|
                0 <= yy < y && 0 <= x < 352 && 0 <= c < 4 && (yy * 352 + x) * 4 + 4 <= n ==> #[trigger] canvas_at(
                    dst@,
                    yy,
                    x,
                    c,
                ) == if nearest_copied(yy, x, w as int, h as int, m as int, n as int) {
                    src@[nearest_index(yy, x, w as int, h as int) + c]
                } else {
                    canvas_at(start, yy, x, c)
                },
            forall|k: int| y * 352 * 4 <= k < n ==> #[trigger] dst@[k] == start[k],
        decreases 288 - y,
    {
        assert(y * h <= 288 * h) by (nonlinear_arith)
            requires
                y <= 288,
        ;
        let r0: u32 = (y as u32 * h) / 288;
        let sy: u32 = if r0 < last_row {
            r0
        } else {
            last_row
        };
        assert(sy == nearest_row(y as int, h as int));
        let mut x: usize = 0;
        while x < 352
            invariant
                scaling_fits(w, h),
                n == dst@.len(),
                m == src@.len(),
                n == start.len(),
                last_col == (if w > 0 {
                    w - 1
                } else {
                    0
                }),
                y < 288,
                x <= 352,
                sy == nearest_row(y as int, h as int),
                sy <= last_row,
                last_row == (if h > 0 {
                    h - 1
                } else {
                    0
                }),
                forall|yy: int, xx: int, c: int|
                    (0 <= yy < y && 0 <= xx < 352 || yy == y && 0 <= xx < x) && 0 <= c < 4 && (yy
                        * 352 + xx) * 4 + 4 <= n ==> #[trigger] canvas_at(dst@, yy, xx, c) == if nearest_copied(
                        yy,
                        xx,
                        w as int,
                        h as int,
                        m as int,
                        n as int,
                    ) {
                        src@[nearest_index(yy, xx, w as int, h as int) + c]
                    } else {
                        canvas_at(start, yy, xx, c)
                    },
                forall|k: int| (y * 352 + x) * 4 <= k < n ==> #[trigger] dst@[k] == start[k],
            decreases 352 - x,
        {
            assert(x * w <= 352 * w) by (nonlinear_arith)
                requires
                    x <= 352,
            ;
            let c0: u32 = (x as u32 * w) / 352;
            let sx: u32 = if c0 < last_col {
                c0
            } else {
                last_col
            };
            assert(sy * w + sx <= h * w + w) by (nonlinear_arith)
                requires
                    sy <= last_row,
                    sx <= last_col,
                    last_row == (if h > 0 {
                        h - 1
                    } else {
                        0
                    }),
                    last_col == (if w > 0 {
                        w - 1
                    } else {
                        0
                    }),
            ;
            let si = ((sy * w + sx) * 4) as usize;
            assert(si == nearest_index(y as int, x as int, w as int, h as int));
            let d = (y * 352 + x) * 4;
            let ghost before = dst@;
            if si <= m && 4 <= m - si && d + 4 <= n {
                dst[d] = src[si];
                dst[d + 1] = src[si + 1];
                dst[d + 2] = src[si + 2];
                dst[d + 3] = src[si + 3];
            }
            assert forall|yy: int, xx: int, c: int|
                (0 <= yy < y && 0 <= xx < 352 || yy == y && 0 <= xx < x + 1) && 0 <= c < 4 && (yy
                    * 352 + xx) * 4 + 4 <= n implies #[trigger] canvas_at(dst@, yy, xx, c) == if nearest_copied(
                yy,
                xx,
                w as int,
                h as int,
                m as int,
                n as int,
            ) {
                src@[nearest_index(yy, xx, w as int, h as int) + c]
            } else {
                canvas_at(start, yy, xx, c)
            } by {
                if !(yy == y && xx == x) {
                    assert(canvas_at(before, yy, xx, c) == if nearest_copied(
                        yy,
                        xx,
                        w as int,
                        h as int,
                        m as int,
                        n as int,
                    ) {
                        src@[nearest_index(yy, xx, w as int, h as int) + c]
                    } else {
                        canvas_at(start, yy, xx, c)
                    });
                }
            }
            x += 1;
        }
        y += 1;
    }
}

} // verus!
