//! The persistent render state and the render cycle that composites both
//! text blocks into the off-screen frame.
//!
//! Brightness is held in thousandths of full scale, and point sizes as
//! whole points, so every pixel computation is exact integer arithmetic.

use crate::color::Rgb;
use crate::frame::{
    Frame, frame_wf, clear, draw_block, apply_bright, bright_ch, block_covers, block_cov,
    spec_pixel, pix_idx, lo_byte, hi_byte, lemma_pix_idx_in_range,
};
use crate::layout::{
    Glyph, glyphs_wf, measure, spec_ink_w, spec_ink_h, lemma_pad_bounds,
};
use crate::place::{Placement, spec_place, compute_pos};
use vstd::prelude::*;

verus! {

/// Vertical bias of the time block: it sits above the screen center.
pub const TIME_BIAS: i32 = -100;

/// Vertical bias of the date block: it sits below the screen center.
pub const DATE_BIAS: i32 = 140;

/// Fixed vertical gap between the time block's bottom edge and the
/// highest Y the date block may occupy.
pub const BLOCK_GAP: usize = 8;

/// Fixed margin, in pixels, kept from every screen edge when a block fits.
pub const MARGIN: usize = 30;

/// Brightness is a fraction of full scale in thousandths; this is 1.0.
pub const BRIGHT_FULL: u32 = 1000;

/// The persistent state the command interpreter mutates: the two texts,
/// color, brightness (thousandths), point sizes, and the shift offset.
pub struct RenderState {
    pub time_text: Vec<u8>,
    pub date_text: Vec<u8>,
    pub color: Rgb,
    pub bright: u32,
    pub time_size: u32,
    pub date_size: u32,
    pub shift_x: i32,
    pub shift_y: i32,
    pub margin: usize,
}

/// The mathematical value of a `RenderState`: texts as byte sequences and
/// every numeric field as an unbounded integer.
#[verifier::ext_equal]
pub ghost struct StateModel {
    pub time_text: Seq<u8>,
    pub date_text: Seq<u8>,
    pub color: Rgb,
    pub bright: int,
    pub time_size: int,
    pub date_size: int,
    pub shift_x: int,
    pub shift_y: int,
    pub margin: int,
}

impl View for RenderState {
    type V = StateModel;

    open spec fn view(&self) -> StateModel {
        StateModel {
            time_text: self.time_text@,
            date_text: self.date_text@,
            color: self.color,
            bright: self.bright as int,
            time_size: self.time_size as int,
            date_size: self.date_size as int,
            shift_x: self.shift_x as int,
            shift_y: self.shift_y as int,
            margin: self.margin as int,
        }
    }
}

/// State invariant: brightness never exceeds full scale, sizes are
/// positive and bounded, the shift is clamped to ten pixels each way.
pub open spec fn state_wf(s: RenderState) -> bool {
    &&& s.bright <= BRIGHT_FULL
    &&& 1 <= s.time_size <= 2000
    &&& 1 <= s.date_size <= 2000
    &&& -10 <= s.shift_x <= 10
    &&& -10 <= s.shift_y <= 10
    &&& s.margin == MARGIN
}

impl RenderState {
    /// The startup state: empty texts, full brightness, no shift, the
    /// fixed margin, and the given color and point sizes (sizes clamped
    /// into the supported range).
    pub fn new(color: Rgb, time_size: u32, date_size: u32) -> (s: RenderState)
        ensures
            state_wf(s),
            s.time_text@.len() == 0,
            s.date_text@.len() == 0,
            s.color == color,
            s.bright == BRIGHT_FULL,
            s.shift_x == 0,
            s.shift_y == 0,
            s.time_size == if time_size < 1 {
                1
            } else if time_size > 2000 {
                2000
            } else {
                time_size as int
            },
            s.date_size == if date_size < 1 {
                1
            } else if date_size > 2000 {
                2000
            } else {
                date_size as int
            },
    {
        let ts = if time_size < 1 {
            1
        } else if time_size > 2000 {
            2000
        } else {
            time_size
        };
        let ds = if date_size < 1 {
            1
        } else if date_size > 2000 {
            2000
        } else {
            date_size
        };
        RenderState {
            time_text: Vec::new(),
            date_text: Vec::new(),
            color,
            bright: BRIGHT_FULL,
            time_size: ts,
            date_size: ds,
            shift_x: 0,
            shift_y: 0,
            margin: MARGIN,
        }
    }
}

/// Where the time block lands on a `fw` by `fh` surface.
pub open spec fn spec_time_place(s: RenderState, fw: int, fh: int, tgs: Seq<Glyph>) -> Placement {
    spec_place(
        spec_ink_w(tgs),
        spec_ink_h(tgs),
        s.time_size as int,
        TIME_BIAS as int,
        None,
        fw,
        fh,
        s.shift_x as int,
        s.shift_y as int,
        s.margin as int,
    )
}

/// The highest Y the date block may occupy when the time block is drawn:
/// the time block's bottom edge plus the fixed gap.
pub open spec fn spec_date_floor(s: RenderState, fw: int, fh: int, tgs: Seq<Glyph>) -> int {
    let tp = spec_time_place(s, fw, fh, tgs);
    tp.y + tp.canvas_h + BLOCK_GAP
}

/// Where the date block lands, honoring the anti-overlap floor whenever
/// the time block is drawn.
pub open spec fn spec_date_place(
    s: RenderState,
    fw: int,
    fh: int,
    tgs: Seq<Glyph>,
    dgs: Seq<Glyph>,
) -> Placement {
    spec_place(
        spec_ink_w(dgs),
        spec_ink_h(dgs),
        s.date_size as int,
        DATE_BIAS as int,
        if tgs.len() > 0 {
            Some(spec_date_floor(s, fw, fh, tgs))
        } else {
            None
        },
        fw,
        fh,
        s.shift_x as int,
        s.shift_y as int,
        s.margin as int,
    )
}

/// The two bytes of pixel `(x, y)` in a fully composed frame: the date
/// block's color where it has ink (it is drawn last), else the time
/// block's, else background black.
pub open spec fn composed_at(
    s: RenderState,
    fw: int,
    fh: int,
    tgs: Seq<Glyph>,
    dgs: Seq<Glyph>,
    buf: Seq<u8>,
    x: int,
    y: int,
) -> bool {
    let tp = spec_time_place(s, fw, fh, tgs);
    let dp = spec_date_place(s, fw, fh, tgs, dgs);
    let tox = tp.x + tp.pad_lr;
    let toy = tp.y + tp.pad_tb;
    let dox = dp.x + dp.pad_lr;
    let doy = dp.y + dp.pad_tb;
    let br = bright_ch(s.color.r, s.bright as int);
    let bg = bright_ch(s.color.g, s.bright as int);
    let bb = bright_ch(s.color.b, s.bright as int);
    if dgs.len() > 0 && block_covers(dgs, dox, doy, x, y) {
        let v = spec_pixel(br, bg, bb, block_cov(dgs, dox, doy, x, y));
        buf[pix_idx(fw, x, y)] == lo_byte(v) && buf[pix_idx(fw, x, y) + 1] == hi_byte(v)
    } else if tgs.len() > 0 && block_covers(tgs, tox, toy, x, y) {
        let v = spec_pixel(br, bg, bb, block_cov(tgs, tox, toy, x, y));
        buf[pix_idx(fw, x, y)] == lo_byte(v) && buf[pix_idx(fw, x, y) + 1] == hi_byte(v)
    } else {
        buf[pix_idx(fw, x, y)] == 0 && buf[pix_idx(fw, x, y) + 1] == 0
    }
}

/// One full render cycle into the off-screen frame: clear to black, paint
/// the time block (if it has glyphs), then the date block (if it has
/// glyphs) no higher than the time block's bottom edge plus the fixed gap.
/// The postcondition fixes every byte of the resulting frame, and states
/// the anti-overlap rule whenever the date canvas fits below the floor.
#[verifier::rlimit(100)]
pub fn compose(st: &RenderState, f: &mut Frame, time_gs: &Vec<Glyph>, date_gs: &Vec<Glyph>)
    requires
        state_wf(*st),
        frame_wf(*old(f)),
        glyphs_wf(time_gs@),
        glyphs_wf(date_gs@),
    ensures
        frame_wf(*final(f)),
        final(f).width == old(f).width,
        final(f).height == old(f).height,
        forall|x: int, y: int|
            0 <= x < old(f).width && 0 <= y < old(f).height ==> composed_at(
                *st,
                old(f).width as int,
                old(f).height as int,
                time_gs@,
                date_gs@,
                final(f).buf@,
                x,
                y,
            ),
        time_gs@.len() > 0 && date_gs@.len() > 0 && spec_date_floor(
            *st,
            old(f).width as int,
            old(f).height as int,
            time_gs@,
        ) + spec_date_place(
            *st,
            old(f).width as int,
            old(f).height as int,
            time_gs@,
            date_gs@,
        ).canvas_h + st.margin <= old(f).height ==> spec_date_place(
            *st,
            old(f).width as int,
            old(f).height as int,
            time_gs@,
            date_gs@,
        ).y >= spec_date_floor(*st, old(f).width as int, old(f).height as int, time_gs@),
{
    let fw = f.width;
    let fh = f.height;
    clear(f);
    let ghost cleared = f.buf@;
    let br = apply_bright(st.color.r, st.bright);
    let bg = apply_bright(st.color.g, st.bright);
    let bb = apply_bright(st.color.b, st.bright);
    let mut min_top: Option<usize> = None;
    proof {
        lemma_pad_bounds(st.time_size as int);
        lemma_pad_bounds(st.date_size as int);
    }
    if time_gs.len() > 0 {
        let (iw, ih) = measure(time_gs);
        let tp = compute_pos(
            iw,
            ih,
            st.time_size,
            TIME_BIAS,
            None,
            fw,
            fh,
            st.shift_x,
            st.shift_y,
            st.margin,
        );
        draw_block(
            f,
            time_gs,
            (tp.x + tp.pad_lr) as i64,
            (tp.y + tp.pad_tb) as i64,
            br,
            bg,
            bb,
        );
        min_top = Some(tp.y + tp.canvas_h + BLOCK_GAP);
    }
    let ghost after_time = f.buf@;
    if date_gs.len() > 0 {
        let (iw, ih) = measure(date_gs);
        let dp = compute_pos(
            iw,
            ih,
            st.date_size,
            DATE_BIAS,
            min_top,
            fw,
            fh,
            st.shift_x,
            st.shift_y,
            st.margin,
        );
        draw_block(
            f,
            date_gs,
            (dp.x + dp.pad_lr) as i64,
            (dp.y + dp.pad_tb) as i64,
            br,
            bg,
            bb,
        );
    }
    proof {
        let fwi = fw as int;
        let fhi = fh as int;
        let tgs = time_gs@;
        let dgs = date_gs@;
        let tp = spec_time_place(*st, fwi, fhi, tgs);
        let dp = spec_date_place(*st, fwi, fhi, tgs, dgs);
        let tox = tp.x + tp.pad_lr;
        let toy = tp.y + tp.pad_tb;
        let dox = dp.x + dp.pad_lr;
        let doy = dp.y + dp.pad_tb;
        assert forall|x: int, y: int| 0 <= x < fw && 0 <= y < fh implies composed_at(
            *st,
            fwi,
            fhi,
            tgs,
            dgs,
            f.buf@,
            x,
            y,
        ) by {
            lemma_pix_idx_in_range(fwi, fhi, x, y);
            if tgs.len() > 0 {
                assert(crate::frame::block_painted_at(
                    after_time,
                    cleared,
                    fwi,
                    tgs,
                    tox,
                    toy,
                    br,
                    bg,
                    bb,
                    x,
                    y,
                ));
            }
            if dgs.len() > 0 {
                assert(crate::frame::block_painted_at(
                    f.buf@,
                    after_time,
                    fwi,
                    dgs,
                    dox,
                    doy,
                    br,
                    bg,
                    bb,
                    x,
                    y,
                ));
            } else {
                assert(f.buf@ == after_time);
            }
        }
    }
}

} // verus!
