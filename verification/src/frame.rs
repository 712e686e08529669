//! The off-screen pixel frame and the compositor that paints glyph
//! coverage into it.
//!
//! The frame is a row-major RGB565 buffer, two bytes per pixel, low byte
//! first. Painting converts coverage to a color scaled by it, and
//! bounds-checks every destination pixel, so a mis-placed anchor can never
//! write outside the buffer.

use crate::color::{spec_rgb565, rgb_to_rgb565};
use crate::layout::{Glyph, glyph_wf, glyphs_wf};
use crate::place::MAX_DIM;
use vstd::prelude::*;

verus! {

/// The off-screen render target.
pub struct Frame {
    pub width: usize,
    pub height: usize,
    pub buf: Vec<u8>,
}

/// Well-formed frame: positive bounded dimensions and a buffer of exactly
/// two bytes per pixel.
pub open spec fn frame_wf(f: Frame) -> bool {
    &&& 1 <= f.width <= MAX_DIM
    &&& 1 <= f.height <= MAX_DIM
    &&& f.buf.len() == f.width * f.height * 2
}

/// Byte offset of pixel `(x, y)` in a frame of width `fw`: two bytes per
/// pixel, row-major.
pub open spec fn pix_idx(fw: int, x: int, y: int) -> int {
    (y * fw + x) * 2
}

/// Distinct in-range pixels occupy disjoint byte pairs.
proof fn lemma_pix_idx_disjoint(fw: int, x1: int, y1: int, x2: int, y2: int)
    requires
        0 <= x1 < fw,
        0 <= x2 < fw,
        0 <= y1,
        0 <= y2,
        x1 != x2 || y1 != y2,
    ensures
        pix_idx(fw, x1, y1) + 2 <= pix_idx(fw, x2, y2) || pix_idx(fw, x2, y2) + 2 <= pix_idx(
            fw,
            x1,
            y1,
        ),
{
    assert((y1 * fw + x1) != (y2 * fw + x2) && ((y1 * fw + x1) * 2 - (y2 * fw + x2) * 2 == 2 * ((y1
        * fw + x1) - (y2 * fw + x2)))) by (nonlinear_arith)
        requires
            0 <= x1 < fw,
            0 <= x2 < fw,
            0 <= y1,
            0 <= y2,
            x1 != x2 || y1 != y2,
    ;
}

/// A pixel inside the frame addresses bytes inside the buffer.
pub proof fn lemma_pix_idx_in_range(fw: int, fh: int, x: int, y: int)
    requires
        0 <= x < fw,
        0 <= y < fh,
    ensures
        0 <= pix_idx(fw, x, y),
        pix_idx(fw, x, y) + 1 < fw * fh * 2,
{
    assert(0 <= (y * fw + x) * 2 && (y * fw + x) * 2 + 1 < fw * fh * 2) by (nonlinear_arith)
        requires
            0 <= x < fw,
            0 <= y < fh,
    ;
}

/// One color channel scaled by a brightness in thousandths.
pub open spec fn bright_ch(c: u8, bright: int) -> u8 {
    ((c * bright) / 1000) as u8
}

/// One color channel scaled by a coverage byte (255 is fully opaque).
pub open spec fn cov_ch(c: u8, cov: u8) -> u8 {
    ((c * cov) / 255) as u8
}

/// The packed pixel a covered destination receives: each channel of the
/// (already brightness-scaled) base color scaled further by the coverage,
/// then packed to RGB565.
pub open spec fn spec_pixel(r: u8, g: u8, b: u8, cov: u8) -> u16 {
    spec_rgb565(cov_ch(r, cov), cov_ch(g, cov), cov_ch(b, cov))
}

/// Low byte of a 16-bit pixel value (stored first).
pub open spec fn lo_byte(v: u16) -> u8 {
    (v & 0xff) as u8
}

/// High byte of a 16-bit pixel value (stored second).
pub open spec fn hi_byte(v: u16) -> u8 {
    (v >> 8) as u8
}

/// Whether glyph `g`, drawn with its block origin at `(ox, oy)`, covers
/// the destination pixel `(x, y)` with nonzero coverage.
pub open spec fn glyph_covers(g: Glyph, ox: int, oy: int, x: int, y: int) -> bool {
    let col = x - (ox + g.x);
    let row = y - (oy + g.y);
    &&& 0 <= col < g.w
    &&& 0 <= row < g.h
    &&& g.cov[row * g.w + col] > 0
}

/// The coverage byte glyph `g` holds for destination pixel `(x, y)`.
pub open spec fn glyph_cov_at(g: Glyph, ox: int, oy: int, x: int, y: int) -> u8 {
    g.cov[(y - (oy + g.y)) * g.w + (x - (ox + g.x))]
}

/// Whether any glyph of the block covers pixel `(x, y)`.
pub open spec fn block_covers(gs: Seq<Glyph>, ox: int, oy: int, x: int, y: int) -> bool {
    exists|i: int| 0 <= i < gs.len() && glyph_covers(#[trigger] gs[i], ox, oy, x, y)
}

/// The coverage the pixel ends up with: that of the last glyph in drawing
/// order that covers it.
pub open spec fn block_cov(gs: Seq<Glyph>, ox: int, oy: int, x: int, y: int) -> u8
    decreases gs.len(),
{
    if gs.len() == 0 {
        0
    } else if glyph_covers(gs.last(), ox, oy, x, y) {
        glyph_cov_at(gs.last(), ox, oy, x, y)
    } else {
        block_cov(gs.drop_last(), ox, oy, x, y)
    }
}

/// Zeroes the whole frame.
pub fn clear(f: &mut Frame)
    requires
        frame_wf(*old(f)),
    ensures
        frame_wf(*final(f)),
        final(f).width == old(f).width,
        final(f).height == old(f).height,
        forall|i: int| 0 <= i < final(f).buf.len() ==> final(f).buf[i] == 0,
{
    let n = f.buf.len();
    let mut i: usize = 0;
    while i < n
        invariant
            0 <= i <= n == f.buf.len(),
            f.width == old(f).width,
            f.height == old(f).height,
            frame_wf(*f),
            forall|j: int| 0 <= j < i ==> f.buf[j] == 0,
        decreases n - i,
    {
        f.buf[i] = 0;
        i = i + 1;
    }
}

/// One channel times a brightness in thousandths, truncating.
pub fn apply_bright(c: u8, bright: u32) -> (r: u8)
    requires
        bright <= 1000,
    ensures
        r == bright_ch(c, bright as int),
{
    proof {
        assert((c as int) * (bright as int) <= 255000 && ((c as int) * (bright as int)) / 1000
            <= 255 && (c as int) * (bright as int) >= 0) by (nonlinear_arith)
            requires
                c <= 255,
                bright <= 1000,
        ;
    }
    let v: u32 = (c as u32) * bright / 1000;
    v as u8
}

/// One channel times a coverage byte, truncating.
pub fn apply_cov(c: u8, cov: u8) -> (r: u8)
    ensures
        r == cov_ch(c, cov),
{
    proof {
        assert((c as int) * (cov as int) <= 65025 && ((c as int) * (cov as int)) / 255 <= 255 && (
        c as int) * (cov as int) >= 0) by (nonlinear_arith)
            requires
                c <= 255,
                cov <= 255,
        ;
    }
    let v: u32 = (c as u32) * (cov as u32) / 255;
    v as u8
}

/// Paint progress inside one glyph: the rows above `row` are done, and in
/// `row` itself the columns left of `col` are done.
pub open spec fn done_upto(g: Glyph, ox: int, oy: int, x: int, y: int, row: int, col: int) -> bool {
    &&& glyph_covers(g, ox, oy, x, y)
    &&& {
        ||| y - (oy + g.y) < row
        ||| (y - (oy + g.y) == row && x - (ox + g.x) < col)
    }
}

/// The two bytes of pixel `(x, y)`: painted with the coverage-scaled color
/// when the glyph's region up to `(row, col)` covers it, and untouched
/// otherwise.
pub open spec fn painted_at(
    buf: Seq<u8>,
    old_buf: Seq<u8>,
    fw: int,
    g: Glyph,
    ox: int,
    oy: int,
    r: u8,
    gc: u8,
    b: u8,
    x: int,
    y: int,
    row: int,
    col: int,
) -> bool {
    if done_upto(g, ox, oy, x, y, row, col) {
        let v = spec_pixel(r, gc, b, glyph_cov_at(g, ox, oy, x, y));
        buf[pix_idx(fw, x, y)] == lo_byte(v) && buf[pix_idx(fw, x, y) + 1] == hi_byte(v)
    } else {
        buf[pix_idx(fw, x, y)] == old_buf[pix_idx(fw, x, y)] && buf[pix_idx(fw, x, y) + 1]
            == old_buf[pix_idx(fw, x, y) + 1]
    }
}

/// Paints one glyph into the frame: every in-frame destination pixel the
/// glyph covers with nonzero coverage receives the coverage-scaled color,
/// low byte first; every other byte of the buffer is untouched. `(ox, oy)`
/// is the block origin the glyph's offsets are relative to; every
/// destination pixel is bounds-checked against the frame.
#[verifier::rlimit(100)]
pub fn draw_glyph(f: &mut Frame, g: &Glyph, ox: i64, oy: i64, r: u8, gc: u8, b: u8)
    requires
        frame_wf(*old(f)),
        glyph_wf(*g),
        -0x1000000 <= ox <= 0x1000000,
        -0x1000000 <= oy <= 0x1000000,
    ensures
        frame_wf(*final(f)),
        final(f).width == old(f).width,
        final(f).height == old(f).height,
        forall|x: int, y: int|
            0 <= x < old(f).width && 0 <= y < old(f).height ==> painted_at(
                final(f).buf@,
                old(f).buf@,
                old(f).width as int,
                *g,
                ox as int,
                oy as int,
                r,
                gc,
                b,
                x,
                y,
                g.h as int,
                0,
            ),
{
    let fw = f.width;
    let fh = f.height;
    let ghost oxs = ox as int;
    let ghost oys = oy as int;
    let gx0: i64 = ox + g.x as i64;
    let gy0: i64 = oy + g.y as i64;
    let mut row: usize = 0;
    while row < g.h
        invariant
            frame_wf(*f),
            glyph_wf(*g),
            f.width == old(f).width == fw,
            f.height == old(f).height == fh,
            f.buf.len() == old(f).buf.len(),
            gx0 == oxs + g.x && gy0 == oys + g.y,
            -0x1000000 <= oxs <= 0x1000000,
            -0x1000000 <= oys <= 0x1000000,
            0 <= row <= g.h,
            forall|x: int, y: int|
                0 <= x < fw && 0 <= y < fh ==> painted_at(
                    f.buf@,
                    old(f).buf@,
                    fw as int,
                    *g,
                    oxs,
                    oys,
                    r,
                    gc,
                    b,
                    x,
                    y,
                    row as int,
                    0,
                ),
        decreases g.h - row,
    {
        let dest_y: i64 = gy0 + row as i64;
        if dest_y >= 0 && dest_y < fh as i64 {
            let mut col: usize = 0;
            while col < g.w
                invariant
                    frame_wf(*f),
                    glyph_wf(*g),
                    f.width == old(f).width == fw,
                    f.height == old(f).height == fh,
                    f.buf.len() == old(f).buf.len(),
                    gx0 == oxs + g.x && gy0 == oys + g.y,
                    -0x1000000 <= oxs <= 0x1000000,
                    -0x1000000 <= oys <= 0x1000000,
                    0 <= row < g.h,
                    0 <= col <= g.w,
                    dest_y == oys + g.y + row,
                    0 <= dest_y < fh,
                    forall|x: int, y: int|
                        0 <= x < fw && 0 <= y < fh ==> painted_at(
                            f.buf@,
                            old(f).buf@,
                            fw as int,
                            *g,
                            oxs,
                            oys,
                            r,
                            gc,
                            b,
                            x,
                            y,
                            row as int,
                            col as int,
                        ),
                decreases g.w - col,
            {
                let dest_x: i64 = gx0 + col as i64;
                proof {
                    assert(row * g.w + col < g.w * g.h && row * g.w + col >= 0) by (nonlinear_arith)
                        requires
                            0 <= row < g.h,
                            0 <= col < g.w,
                    ;
                }
                let cov = g.cov[row * g.w + col];
                if dest_x >= 0 && dest_x < fw as i64 && cov > 0 {
                    let ghost xs = dest_x as int;
                    let ghost ys = dest_y as int;
                    proof {
                        lemma_pix_idx_in_range(fw as int, fh as int, xs, ys);
                        assert((dest_y as usize) * (fw * 2) + (dest_x as usize) * 2 == pix_idx(
                            fw as int,
                            xs,
                            ys,
                        )) by (nonlinear_arith)
                            requires
                                pix_idx(fw as int, xs, ys) == (ys * fw + xs) * 2,
                                0 <= xs < fw,
                                0 <= ys < fh,
                                dest_x as usize == xs,
                                dest_y as usize == ys,
                        ;
                    }
                    let idx: usize = (dest_y as usize) * (fw * 2) + (dest_x as usize) * 2;
                    let vr = apply_cov(r, cov);
                    let vg = apply_cov(gc, cov);
                    let vb = apply_cov(b, cov);
                    let packed = rgb_to_rgb565(vr, vg, vb).0;
                    proof {
                        assert(packed & 0xff < 256 && packed >> 8 < 256) by (bit_vector);
                    }
                    let lo = (packed & 0xff) as u8;
                    let hi = (packed >> 8) as u8;
                    let ghost before = f.buf@;
                    f.buf[idx] = lo;
                    f.buf[idx + 1] = hi;
                    proof {
                        assert(glyph_covers(*g, oxs, oys, xs, ys));
                        assert(glyph_cov_at(*g, oxs, oys, xs, ys) == cov);
                        assert(packed == spec_pixel(r, gc, b, cov));
                        let c2: int = col as int + 1;
                        assert forall|x: int, y: int|
                            0 <= x < fw && 0 <= y < fh implies painted_at(
                            f.buf@,
                            old(f).buf@,
                            fw as int,
                            *g,
                            oxs,
                            oys,
                            r,
                            gc,
                            b,
                            x,
                            y,
                            row as int,
                            c2,
                        ) by {
                            lemma_pix_idx_in_range(fw as int, fh as int, x, y);
                            assert(painted_at(
                                before,
                                old(f).buf@,
                                fw as int,
                                *g,
                                oxs,
                                oys,
                                r,
                                gc,
                                b,
                                x,
                                y,
                                row as int,
                                col as int,
                            ));
                            if x == xs && y == ys {
                                assert(done_upto(*g, oxs, oys, x, y, row as int, col + 1));
                                assert(f.buf@[pix_idx(fw as int, x, y)] == lo_byte(packed));
                                assert(f.buf@[pix_idx(fw as int, x, y) + 1] == hi_byte(packed));
                            } else {
                                lemma_pix_idx_disjoint(fw as int, x, y, xs, ys);
                                assert(f.buf@[pix_idx(fw as int, x, y)] == before[pix_idx(
                                    fw as int,
                                    x,
                                    y,
                                )]);
                                assert(f.buf@[pix_idx(fw as int, x, y) + 1] == before[pix_idx(
                                    fw as int,
                                    x,
                                    y,
                                ) + 1]);
                                assert(done_upto(*g, oxs, oys, x, y, row as int, col + 1)
                                    == done_upto(*g, oxs, oys, x, y, row as int, col as int));
                            }
                        }
                    }
                } else {
                    proof {
                        let c2: int = col as int + 1;
                        assert forall|x: int, y: int|
                            0 <= x < fw && 0 <= y < fh implies painted_at(
                            f.buf@,
                            old(f).buf@,
                            fw as int,
                            *g,
                            oxs,
                            oys,
                            r,
                            gc,
                            b,
                            x,
                            y,
                            row as int,
                            c2,
                        ) by {
                            assert(painted_at(
                                f.buf@,
                                old(f).buf@,
                                fw as int,
                                *g,
                                oxs,
                                oys,
                                r,
                                gc,
                                b,
                                x,
                                y,
                                row as int,
                                col as int,
                            ));
                            if done_upto(*g, oxs, oys, x, y, row as int, c2) && !done_upto(
                                *g,
                                oxs,
                                oys,
                                x,
                                y,
                                row as int,
                                col as int,
                            ) {
                                assert(x == oxs + g.x + col && y == oys + g.y + row);
                                assert(glyph_covers(*g, oxs, oys, x, y));
                                assert(g.cov[(y - (oys + g.y)) * g.w + (x - (oxs + g.x))] == cov);
                                assert(!(0 <= dest_x < fw) || cov == 0);
                                assert(false);
                            }
                        }
                    }
                }
                col = col + 1;
            }
            proof {
                let r2: int = row as int + 1;
                assert forall|x: int, y: int|
                    0 <= x < fw && 0 <= y < fh implies painted_at(
                    f.buf@,
                    old(f).buf@,
                    fw as int,
                    *g,
                    oxs,
                    oys,
                    r,
                    gc,
                    b,
                    x,
                    y,
                    r2,
                    0,
                ) by {
                    assert(painted_at(
                                f.buf@,
                                old(f).buf@,
                                fw as int,
                                *g,
                                oxs,
                                oys,
                                r,
                                gc,
                                b,
                                x,
                                y,
                                row as int,
                                g.w as int,
                            ));
                            assert(done_upto(*g, oxs, oys, x, y, r2, 0) == done_upto(
                        *g,
                        oxs,
                        oys,
                        x,
                        y,
                        row as int,
                        g.w as int,
                    ));
                }
            }
        } else {
            proof {
                let r2: int = row as int + 1;
                assert forall|x: int, y: int|
                    0 <= x < fw && 0 <= y < fh implies painted_at(
                    f.buf@,
                    old(f).buf@,
                    fw as int,
                    *g,
                    oxs,
                    oys,
                    r,
                    gc,
                    b,
                    x,
                    y,
                    r2,
                    0,
                ) by {
                    assert(painted_at(
                                f.buf@,
                                old(f).buf@,
                                fw as int,
                                *g,
                                oxs,
                                oys,
                                r,
                                gc,
                                b,
                                x,
                                y,
                                row as int,
                                0,
                            ));
                            if done_upto(*g, oxs, oys, x, y, r2, 0) && !done_upto(
                        *g,
                        oxs,
                        oys,
                        x,
                        y,
                        row as int,
                        0,
                    ) {
                        assert(y == oys + g.y + row);
                        assert(glyph_covers(*g, oxs, oys, x, y));
                        assert(false);
                    }
                }
            }
        }
        row = row + 1;
    }
    proof {
        assert forall|x: int, y: int|
            0 <= x < fw && 0 <= y < fh implies painted_at(
            f.buf@,
            old(f).buf@,
            fw as int,
            *g,
            oxs,
            oys,
            r,
            gc,
            b,
            x,
            y,
            g.h as int,
            0,
        ) by {
            assert(done_upto(*g, oxs, oys, x, y, g.h as int, 0) == done_upto(
                *g,
                oxs,
                oys,
                x,
                y,
                g.h as int,
                0,
            ));
        }
    }
}

/// The two bytes of pixel `(x, y)` after painting a whole block: painted
/// with the last covering glyph's coverage when any glyph covers it, and
/// untouched otherwise.
pub open spec fn block_painted_at(
    buf: Seq<u8>,
    old_buf: Seq<u8>,
    fw: int,
    gs: Seq<Glyph>,
    ox: int,
    oy: int,
    r: u8,
    gc: u8,
    b: u8,
    x: int,
    y: int,
) -> bool {
    if block_covers(gs, ox, oy, x, y) {
        let v = spec_pixel(r, gc, b, block_cov(gs, ox, oy, x, y));
        buf[pix_idx(fw, x, y)] == lo_byte(v) && buf[pix_idx(fw, x, y) + 1] == hi_byte(v)
    } else {
        buf[pix_idx(fw, x, y)] == old_buf[pix_idx(fw, x, y)] && buf[pix_idx(fw, x, y) + 1]
            == old_buf[pix_idx(fw, x, y) + 1]
    }
}

/// Paints the glyphs of one text block, in order, with its origin at
/// `(ox, oy)`: each in-frame pixel some glyph covers ends up with the last
/// covering glyph's coverage-scaled color, and every other byte of the
/// buffer is untouched.
#[verifier::rlimit(100)]
pub fn draw_block(f: &mut Frame, gs: &Vec<Glyph>, ox: i64, oy: i64, r: u8, gc: u8, b: u8)
    requires
        frame_wf(*old(f)),
        glyphs_wf(gs@),
        -0x1000000 <= ox <= 0x1000000,
        -0x1000000 <= oy <= 0x1000000,
    ensures
        frame_wf(*final(f)),
        final(f).width == old(f).width,
        final(f).height == old(f).height,
        forall|x: int, y: int|
            0 <= x < old(f).width && 0 <= y < old(f).height ==> block_painted_at(
                final(f).buf@,
                old(f).buf@,
                old(f).width as int,
                gs@,
                ox as int,
                oy as int,
                r,
                gc,
                b,
                x,
                y,
            ),
{
    let fw = f.width;
    let fh = f.height;
    let ghost oxs = ox as int;
    let ghost oys = oy as int;
    let mut i: usize = 0;
    while i < gs.len()
        invariant
            frame_wf(*f),
            glyphs_wf(gs@),
            f.width == old(f).width == fw,
            f.height == old(f).height == fh,
            f.buf.len() == old(f).buf.len(),
            -0x1000000 <= oxs <= 0x1000000,
            -0x1000000 <= oys <= 0x1000000,
            oxs == ox as int && oys == oy as int,
            0 <= i <= gs@.len(),
            forall|x: int, y: int|
                0 <= x < fw && 0 <= y < fh ==> block_painted_at(
                    f.buf@,
                    old(f).buf@,
                    fw as int,
                    gs@.take(i as int),
                    oxs,
                    oys,
                    r,
                    gc,
                    b,
                    x,
                    y,
                ),
        decreases gs@.len() - i,
    {
        let ghost mid = f.buf@;
        let g = &gs[i];
        draw_glyph(f, g, ox, oy, r, gc, b);
        proof {
            let pre = gs@.take(i as int);
            let post = gs@.take(i + 1);
            assert(post.drop_last() =~= pre);
            assert(post.last() == gs@[i as int]);
            assert forall|x: int, y: int| 0 <= x < fw && 0 <= y < fh implies block_painted_at(
                f.buf@,
                old(f).buf@,
                fw as int,
                post,
                oxs,
                oys,
                r,
                gc,
                b,
                x,
                y,
            ) by {
                assert(block_painted_at(
                    mid,
                    old(f).buf@,
                    fw as int,
                    pre,
                    oxs,
                    oys,
                    r,
                    gc,
                    b,
                    x,
                    y,
                ));
                assert(painted_at(
                    f.buf@,
                    mid,
                    fw as int,
                    gs@[i as int],
                    oxs,
                    oys,
                    r,
                    gc,
                    b,
                    x,
                    y,
                    gs@[i as int].h as int,
                    0,
                ));
                if glyph_covers(gs@[i as int], oxs, oys, x, y) {
                    assert(done_upto(gs@[i as int], oxs, oys, x, y, gs@[i as int].h as int, 0));
                    assert(block_covers(post, oxs, oys, x, y));
                    assert(block_cov(post, oxs, oys, x, y) == glyph_cov_at(
                        gs@[i as int],
                        oxs,
                        oys,
                        x,
                        y,
                    ));
                } else {
                    assert(!done_upto(gs@[i as int], oxs, oys, x, y, gs@[i as int].h as int, 0));
                    assert(block_cov(post, oxs, oys, x, y) == block_cov(pre, oxs, oys, x, y));
                    if block_covers(pre, oxs, oys, x, y) {
                        let j = choose|j: int|
                            0 <= j < pre.len() && glyph_covers(#[trigger] pre[j], oxs, oys, x, y);
                        assert(post[j] == pre[j]);
                        assert(block_covers(post, oxs, oys, x, y));
                    } else if block_covers(post, oxs, oys, x, y) {
                        let j = choose|j: int|
                            0 <= j < post.len() && glyph_covers(#[trigger] post[j], oxs, oys, x, y);
                        assert(j < i + 1);
                        if j < i {
                            assert(pre[j] == post[j]);
                            assert(block_covers(pre, oxs, oys, x, y));
                        }
                        assert(false);
                    }
                }
            }
        }
        i = i + 1;
    }
    proof {
        assert(gs@.take(gs@.len() as int) =~= gs@);
    }
}

impl Frame {
    /// A fresh all-black frame of the given dimensions.
    pub fn new(width: usize, height: usize) -> (f: Frame)
        requires
            1 <= width <= MAX_DIM,
            1 <= height <= MAX_DIM,
        ensures
            frame_wf(f),
            f.width == width,
            f.height == height,
            forall|i: int| 0 <= i < f.buf.len() ==> f.buf[i] == 0,
    {
        proof {
            assert(width * height * 2 < 0x40000000) by (nonlinear_arith)
                requires
                    1 <= width <= MAX_DIM,
                    1 <= height <= MAX_DIM,
            ;
        }
        let len: usize = width * height * 2;
        let mut buf: Vec<u8> = Vec::new();
        let mut i: usize = 0;
        while i < len
            invariant
                0 <= i <= len,
                buf@.len() == i,
                forall|j: int| 0 <= j < i ==> buf@[j] == 0,
            decreases len - i,
        {
            buf.push(0);
            i = i + 1;
        }
        Frame { width, height, buf }
    }
}

} // verus!
