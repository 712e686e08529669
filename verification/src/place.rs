//! Placement of a measured text block on the surface: centering with the
//! persistent shift offset and a per-block vertical bias, an optional
//! "keep below this Y" floor used to stack the date block under the time
//! block, and a final clamp to the margin band.

use crate::layout::{spec_pad_lr, spec_pad_tb};
use vstd::prelude::*;

verus! {

/// Largest surface dimension the model admits, on either axis.
pub const MAX_DIM: usize = 16384;

/// Largest ink extent the placement functions accept on either axis.
pub const MAX_INK: usize = 0x400000;

/// A placed block: top-left anchor, padded canvas size, and the padding
/// that separates the canvas edge from the ink box.
#[derive(Clone, Copy, PartialEq, Eq, Structural, Debug)]
pub struct Placement {
    pub x: usize,
    pub y: usize,
    pub canvas_w: usize,
    pub canvas_h: usize,
    pub pad_lr: usize,
    pub pad_tb: usize,
}

/// The placement rule. The canvas is the ink box plus size-scaled padding;
/// the desired anchor centers it on the screen center shifted by the
/// persistent offset and the block's vertical bias; `min_top` (when given)
/// raises the desired top edge; and the anchor is clamped so the canvas
/// lies inside the margin band whenever it fits there, saturating toward
/// the top-left edge when it cannot.
pub open spec fn spec_place(
    ink_w: int,
    ink_h: int,
    size: int,
    y_bias: int,
    min_top: Option<int>,
    fw: int,
    fh: int,
    shift_x: int,
    shift_y: int,
    margin: int,
) -> Placement {
    let pad_lr = spec_pad_lr(size);
    let pad_tb = spec_pad_tb(size);
    let cw = ink_w + 2 * pad_lr;
    let ch = ink_h + 2 * pad_tb;
    let center_x = fw / 2 + shift_x;
    let center_y = fh / 2 + shift_y + y_bias;
    let desired_x = center_x - cw / 2;
    let desired_y0 = center_y - ch / 2;
    let desired_y = match min_top {
        Some(m) => if desired_y0 < m {
            m
        } else {
            desired_y0
        },
        None => desired_y0,
    };
    let x0 = if desired_x >= margin {
        desired_x
    } else {
        margin
    };
    let y0 = if desired_y >= margin {
        desired_y
    } else {
        margin
    };
    let x = if x0 + cw + margin > fw {
        if cw + margin <= fw {
            fw - cw - margin
        } else {
            0
        }
    } else {
        x0
    };
    let y = if y0 + ch + margin > fh {
        if ch + margin <= fh {
            fh - ch - margin
        } else {
            0
        }
    } else {
        y0
    };
    Placement {
        x: x as usize,
        y: y as usize,
        canvas_w: cw as usize,
        canvas_h: ch as usize,
        pad_lr: pad_lr as usize,
        pad_tb: pad_tb as usize,
    }
}

/// Places one measured block. Beyond the exact placement rule, the
/// postcondition pins the safety clamps: the anchor is never negative (by
/// type) and, whenever the canvas fits inside the margin band on an axis,
/// anchor + canvas + margin stays within the surface on that axis; and the
/// anti-overlap floor is honored whenever the canvas fits below it.
#[verifier::rlimit(100)]
pub fn compute_pos(
    ink_w: usize,
    ink_h: usize,
    size: u32,
    y_bias: i32,
    min_top: Option<usize>,
    fw: usize,
    fh: usize,
    shift_x: i32,
    shift_y: i32,
    margin: usize,
) -> (p: Placement)
    requires
        ink_w <= MAX_INK,
        ink_h <= MAX_INK,
        1 <= size <= 100000,
        -100000 <= y_bias <= 100000,
        min_top is Some ==> min_top->Some_0 <= 0x800000,
        0 < fw <= MAX_DIM,
        0 < fh <= MAX_DIM,
        -100 <= shift_x <= 100,
        -100 <= shift_y <= 100,
        margin <= 10000,
    ensures
        p == spec_place(
            ink_w as int,
            ink_h as int,
            size as int,
            y_bias as int,
            match min_top {
                Some(m) => Some(m as int),
                None => None,
            },
            fw as int,
            fh as int,
            shift_x as int,
            shift_y as int,
            margin as int,
        ),
        p.canvas_w + margin <= fw ==> p.x + p.canvas_w + margin <= fw,
        p.canvas_h + margin <= fh ==> p.y + p.canvas_h + margin <= fh,
        p.x <= fw,
        p.y <= fh,
        match min_top {
            Some(m) => m + p.canvas_h + margin <= fh ==> p.y >= m,
            None => true,
        },
{
    let (pad_lr, pad_tb) = crate::layout::padding_for_size(size);
    let cw: usize = ink_w + 2 * pad_lr;
    let ch: usize = ink_h + 2 * pad_tb;
    let center_x: i64 = (fw / 2) as i64 + shift_x as i64;
    let center_y: i64 = (fh / 2) as i64 + shift_y as i64 + y_bias as i64;
    let desired_x: i64 = center_x - (cw / 2) as i64;
    let mut desired_y: i64 = center_y - (ch / 2) as i64;
    match min_top {
        Some(m) => {
            if desired_y < m as i64 {
                desired_y = m as i64;
            }
        },
        None => {},
    }
    let mut x: usize = if desired_x >= margin as i64 {
        desired_x as usize
    } else {
        margin
    };
    let mut y: usize = if desired_y >= margin as i64 {
        desired_y as usize
    } else {
        margin
    };
    if x + cw + margin > fw {
        x = if cw + margin <= fw {
            fw - cw - margin
        } else {
            0
        };
    }
    if y + ch + margin > fh {
        y = if ch + margin <= fh {
            fh - ch - margin
        } else {
            0
        };
    }
    Placement { x, y, canvas_w: cw, canvas_h: ch, pad_lr, pad_tb }
}

/// The anti-overlap rule between the two stacked blocks: when the date
/// block's canvas fits below the floor handed to it (the time block's
/// bottom edge plus the fixed 8-pixel gap), its placed top edge never
/// rises above that floor.
pub proof fn lemma_blocks_separated(
    time_p: Placement,
    ink_w: int,
    ink_h: int,
    size: int,
    y_bias: int,
    fw: int,
    fh: int,
    shift_x: int,
    shift_y: int,
    margin: int,
)
    requires
        0 <= ink_w <= MAX_INK as int,
        0 <= ink_h <= MAX_INK as int,
        1 <= size <= 100000,
        -100000 <= y_bias <= 100000,
        time_p.y + time_p.canvas_h + 8 <= 0x800000,
        0 < fw <= MAX_DIM as int,
        0 < fh <= MAX_DIM as int,
        -100 <= shift_x <= 100,
        -100 <= shift_y <= 100,
        0 <= margin <= 10000,
        time_p.y + time_p.canvas_h + 8 + spec_place(
            ink_w,
            ink_h,
            size,
            y_bias,
            Some(time_p.y + time_p.canvas_h + 8),
            fw,
            fh,
            shift_x,
            shift_y,
            margin,
        ).canvas_h + margin <= fh,
    ensures
        spec_place(
            ink_w,
            ink_h,
            size,
            y_bias,
            Some(time_p.y + time_p.canvas_h + 8),
            fw,
            fh,
            shift_x,
            shift_y,
            margin,
        ).y >= time_p.y + time_p.canvas_h + 8,
{
}

} // verus!
