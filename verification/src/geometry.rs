//! Parsing of the screen geometry descriptor: a `"<width>,<height>"` text,
//! with a fixed fallback when the content is missing or malformed.

use crate::bytes::{all_digits, dec_val, parse_usize, prefix_len, trim_bounds, trimmed};
use vstd::prelude::*;

verus! {

/// Fallback surface width when no geometry can be read.
pub const DEFAULT_FB_W: usize = 1920;

/// Fallback surface height when no geometry can be read.
pub const DEFAULT_FB_H: usize = 1200;

/// Bytes that are not a comma.
pub open spec fn non_comma_pred() -> spec_fn(u8) -> bool {
    |b: u8| b != 44
}

/// One field of the descriptor: its decimal value if it is a well-formed
/// machine-sized numeral (one optional leading `+`, as the standard
/// unsigned parser accepts), else the fallback.
pub open spec fn spec_dim(part: Seq<u8>, fallback: int) -> int {
    let mag = if part.len() > 0 && part[0] == 43 {
        part.drop_first()
    } else {
        part
    };
    if all_digits(mag) && dec_val(mag) <= usize::MAX {
        dec_val(mag)
    } else {
        fallback
    }
}

/// Parses one field of the descriptor.
fn parse_dim(part: &[u8], fallback: usize) -> (r: usize)
    ensures
        r == spec_dim(part@, fallback as int),
{
    let mag = if part.len() > 0 && part[0] == 43 {
        vstd::slice::slice_subrange(part, 1, part.len())
    } else {
        vstd::slice::slice_subrange(part, 0, part.len())
    };
    proof {
        if part@.len() > 0 && part@[0] == 43 {
            assert(mag@ =~= part@.drop_first());
        } else {
            assert(mag@ =~= part@);
        }
    }
    match parse_usize(mag) {
        Some(v) => v,
        None => fallback,
    }
}

/// What the descriptor yields: the trimmed text must be exactly two
/// comma-separated fields; each field parses with its own fallback, and
/// anything else (no comma, more than one) yields both fallbacks.
pub open spec fn spec_fb_size(s: Seq<u8>) -> (int, int) {
    let t = trimmed(s);
    let d = prefix_len(t, non_comma_pred());
    if d < t.len() && prefix_len(t.skip(d + 1), non_comma_pred()) == t.len() - d - 1 {
        (spec_dim(t.take(d), DEFAULT_FB_W as int), spec_dim(t.skip(d + 1), DEFAULT_FB_H as int))
    } else {
        (DEFAULT_FB_W as int, DEFAULT_FB_H as int)
    }
}

/// Parses the geometry descriptor's content.
pub fn parse_fb_size(s: &[u8]) -> (r: (usize, usize))
    ensures
        r.0 == spec_fb_size(s@).0,
        r.1 == spec_fb_size(s@).1,
{
    let (lo, hi) = trim_bounds(s);
    let ghost t = trimmed(s@);
    // Find the first comma of the trimmed text.
    let mut d: usize = lo;
    while d < hi && s[d] != 44
        invariant
            lo <= d <= hi <= s@.len(),
            forall|j: int| lo <= j < d ==> s@[j] != 44,
        decreases hi - d,
    {
        d = d + 1;
    }
    proof {
        crate::bytes::lemma_prefix_len(t, non_comma_pred(), d - lo);
    }
    if d == hi {
        return (DEFAULT_FB_W, DEFAULT_FB_H);
    }
    // Check there is no second comma.
    let mut e: usize = d + 1;
    while e < hi && s[e] != 44
        invariant
            d + 1 <= e <= hi <= s@.len(),
            forall|j: int| d + 1 <= j < e ==> s@[j] != 44,
        decreases hi - e,
    {
        e = e + 1;
    }
    proof {
        assert(t.skip(d - lo + 1) =~= s@.subrange(d + 1, hi as int));
        crate::bytes::lemma_prefix_len(t.skip(d - lo + 1), non_comma_pred(), e - d - 1);
    }
    if e < hi {
        return (DEFAULT_FB_W, DEFAULT_FB_H);
    }
    let wpart = vstd::slice::slice_subrange(s, lo, d);
    let hpart = vstd::slice::slice_subrange(s, d + 1, hi);
    proof {
        assert(wpart@ =~= t.take(d - lo));
        assert(hpart@ =~= t.skip(d - lo + 1));
    }
    let w = parse_dim(wpart, DEFAULT_FB_W);
    let h = parse_dim(hpart, DEFAULT_FB_H);
    (w, h)
}

} // verus!
