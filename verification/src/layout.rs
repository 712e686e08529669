//! Text layout: the glyph raster model and the ink-bounds measurement of a
//! shaped string.
//!
//! Shaping and rasterizing with a real font happen outside this crate; what
//! comes back is, per glyph, an ink origin relative to the text block's
//! origin and a coverage bitmap. The ink bounding box of a block is the
//! union of its glyphs' boxes, which can extend outside the nominal advance
//! cells (italic overshoot and the like).

use vstd::prelude::*;

verus! {

/// One rasterized glyph, positioned for drawing: `x`, `y` are the ink
/// origin relative to the block origin (pen position plus ink offset,
/// Y growing downward), and `cov` holds `w * h` coverage bytes, row-major.
pub struct Glyph {
    pub x: i32,
    pub y: i32,
    pub w: usize,
    pub h: usize,
    pub cov: Vec<u8>,
}

/// Well-formed glyph raster: the bitmap matches its dimensions, and both
/// the dimensions and the ink origin are within generous bounds that keep
/// every later coordinate computation exact.
pub open spec fn glyph_wf(g: Glyph) -> bool {
    &&& g.cov.len() == g.w * g.h
    &&& g.w <= 0x10000
    &&& g.h <= 0x10000
    &&& -0x100000 <= g.x <= 0x100000
    &&& -0x100000 <= g.y <= 0x100000
}

pub open spec fn glyphs_wf(gs: Seq<Glyph>) -> bool {
    forall|i: int| 0 <= i < gs.len() ==> glyph_wf(#[trigger] gs[i])
}

/// Leftmost ink edge over the glyphs (0 when there are none).
pub open spec fn ink_lo_x(gs: Seq<Glyph>) -> int
    decreases gs.len(),
{
    if gs.len() == 0 {
        0
    } else if gs.len() == 1 {
        gs[0].x as int
    } else if ink_lo_x(gs.drop_last()) <= gs.last().x {
        ink_lo_x(gs.drop_last())
    } else {
        gs.last().x as int
    }
}

/// Rightmost ink edge over the glyphs.
pub open spec fn ink_hi_x(gs: Seq<Glyph>) -> int
    decreases gs.len(),
{
    if gs.len() == 0 {
        0
    } else if gs.len() == 1 {
        gs[0].x + gs[0].w
    } else if ink_hi_x(gs.drop_last()) >= gs.last().x + gs.last().w {
        ink_hi_x(gs.drop_last())
    } else {
        gs.last().x + gs.last().w
    }
}

/// Topmost ink edge over the glyphs.
pub open spec fn ink_lo_y(gs: Seq<Glyph>) -> int
    decreases gs.len(),
{
    if gs.len() == 0 {
        0
    } else if gs.len() == 1 {
        gs[0].y as int
    } else if ink_lo_y(gs.drop_last()) <= gs.last().y {
        ink_lo_y(gs.drop_last())
    } else {
        gs.last().y as int
    }
}

/// Bottommost ink edge over the glyphs.
pub open spec fn ink_hi_y(gs: Seq<Glyph>) -> int
    decreases gs.len(),
{
    if gs.len() == 0 {
        0
    } else if gs.len() == 1 {
        gs[0].y + gs[0].h
    } else if ink_hi_y(gs.drop_last()) >= gs.last().y + gs.last().h {
        ink_hi_y(gs.drop_last())
    } else {
        gs.last().y + gs.last().h
    }
}

/// Width of the ink bounding box: the union of the glyph boxes.
pub open spec fn spec_ink_w(gs: Seq<Glyph>) -> int {
    if gs.len() == 0 {
        0
    } else {
        ink_hi_x(gs) - ink_lo_x(gs)
    }
}

/// Height of the ink bounding box.
pub open spec fn spec_ink_h(gs: Seq<Glyph>) -> int {
    if gs.len() == 0 {
        0
    } else {
        ink_hi_y(gs) - ink_lo_y(gs)
    }
}

/// The ink edges bound every glyph's box, and each edge is attained by
/// some glyph.
pub proof fn lemma_ink_bounds(gs: Seq<Glyph>)
    requires
        gs.len() > 0,
    ensures
        forall|i: int| 0 <= i < gs.len() ==> ink_lo_x(gs) <= #[trigger] gs[i].x,
        forall|i: int| 0 <= i < gs.len() ==> #[trigger] gs[i].x + gs[i].w <= ink_hi_x(gs),
        forall|i: int| 0 <= i < gs.len() ==> ink_lo_y(gs) <= #[trigger] gs[i].y,
        forall|i: int| 0 <= i < gs.len() ==> #[trigger] gs[i].y + gs[i].h <= ink_hi_y(gs),
    decreases gs.len(),
{
    if gs.len() > 1 {
        lemma_ink_bounds(gs.drop_last());
        assert(forall|i: int| 0 <= i < gs.len() - 1 ==> gs.drop_last()[i] == #[trigger] gs[i]);
        assert(gs.last() == gs[gs.len() - 1]);
    }
}

/// Measures the ink bounding box of a shaped block: the union of its
/// glyphs' boxes. An empty block measures zero on both axes.
pub fn measure(gs: &Vec<Glyph>) -> (r: (usize, usize))
    requires
        glyphs_wf(gs@),
    ensures
        r.0 == spec_ink_w(gs@),
        r.1 == spec_ink_h(gs@),
        r.0 <= 0x210000,
        r.1 <= 0x210000,
{
    if gs.len() == 0 {
        return (0, 0);
    }
    let g0 = &gs[0];
    let mut lo_x: i64 = g0.x as i64;
    let mut hi_x: i64 = g0.x as i64 + g0.w as i64;
    let mut lo_y: i64 = g0.y as i64;
    let mut hi_y: i64 = g0.y as i64 + g0.h as i64;
    let mut i: usize = 1;
    proof {
        assert(gs@.take(1).drop_last() =~= gs@.take(0));
    }
    while i < gs.len()
        invariant
            1 <= i <= gs@.len(),
            glyphs_wf(gs@),
            lo_x == ink_lo_x(gs@.take(i as int)),
            hi_x == ink_hi_x(gs@.take(i as int)),
            lo_y == ink_lo_y(gs@.take(i as int)),
            hi_y == ink_hi_y(gs@.take(i as int)),
            -0x100000 <= lo_x <= 0x100000,
            0 <= hi_x - lo_x,
            -0x100000 <= hi_x <= 0x110000,
            -0x100000 <= lo_y <= 0x100000,
            0 <= hi_y - lo_y,
            -0x100000 <= hi_y <= 0x110000,
        decreases gs@.len() - i,
    {
        let g = &gs[i];
        proof {
            let t = gs@.take(i + 1);
            assert(t.drop_last() =~= gs@.take(i as int));
            assert(t.last() == gs@[i as int]);
            assert(glyph_wf(gs@[i as int]));
        }
        let gx: i64 = g.x as i64;
        let gy: i64 = g.y as i64;
        let gx2: i64 = gx + g.w as i64;
        let gy2: i64 = gy + g.h as i64;
        if gx < lo_x {
            lo_x = gx;
        }
        if gx2 > hi_x {
            hi_x = gx2;
        }
        if gy < lo_y {
            lo_y = gy;
        }
        if gy2 > hi_y {
            hi_y = gy2;
        }
        i = i + 1;
    }
    proof {
        assert(gs@.take(gs@.len() as int) =~= gs@);
    }
    ((hi_x - lo_x) as usize, (hi_y - lo_y) as usize)
}

/// Horizontal canvas padding for a point size: a twelfth of the size,
/// rounded up, and never below 16 pixels.
pub open spec fn spec_pad_lr(size: int) -> int {
    let p = (size + 11) / 12;
    if p >= 16 {
        p
    } else {
        16
    }
}

/// Vertical canvas padding for a point size: a twenty-eighth of the size,
/// rounded up, and never below 6 pixels.
pub open spec fn spec_pad_tb(size: int) -> int {
    let p = (size + 27) / 28;
    if p >= 6 {
        p
    } else {
        6
    }
}

/// Padding that scales with the point size, so that large glyphs'
/// overshoot does not clip at the canvas edge.
pub fn padding_for_size(size: u32) -> (r: (usize, usize))
    requires
        size <= 100000,
    ensures
        r.0 == spec_pad_lr(size as int),
        r.1 == spec_pad_tb(size as int),
{
    let p_lr = ((size + 11) / 12) as usize;
    let p_tb = ((size + 27) / 28) as usize;
    (if p_lr >= 16 {
        p_lr
    } else {
        16
    }, if p_tb >= 6 {
        p_tb
    } else {
        6
    })
}

/// The paddings are bounded when the point size is.
pub proof fn lemma_pad_bounds(size: int)
    requires
        1 <= size <= 2000,
    ensures
        16 <= spec_pad_lr(size) <= 168,
        6 <= spec_pad_tb(size) <= 73,
{
    vstd::arithmetic::div_mod::lemma_div_is_ordered(size + 11, 2011, 12);
    vstd::arithmetic::div_mod::lemma_div_is_ordered(size + 27, 2027, 28);
}

/// A block with at least one renderable glyph (positive width and height)
/// measures at least one pixel of ink on each axis, and its padded canvas
/// is strictly larger than the ink box on both axes.
pub proof fn lemma_renderable_ink_box(gs: Seq<Glyph>, size: int)
    requires
        glyphs_wf(gs),
        exists|i: int| 0 <= i < gs.len() && (#[trigger] gs[i].w) >= 1 && gs[i].h >= 1,
    ensures
        spec_ink_w(gs) >= 1,
        spec_ink_h(gs) >= 1,
        spec_ink_w(gs) + 2 * spec_pad_lr(size) > spec_ink_w(gs),
        spec_ink_h(gs) + 2 * spec_pad_tb(size) > spec_ink_h(gs),
{
    lemma_ink_bounds(gs);
    let i = choose|i: int| 0 <= i < gs.len() && (#[trigger] gs[i].w) >= 1 && gs[i].h >= 1;
    assert(ink_lo_x(gs) <= gs[i].x);
    assert(gs[i].x + gs[i].w <= ink_hi_x(gs));
    assert(ink_lo_y(gs) <= gs[i].y);
    assert(gs[i].y + gs[i].h <= ink_hi_y(gs));
}

} // verus!
