//! Colors: 24-bit RGB triples, the RGB565 packing used by the display, and
//! the `#rrggbb` hex parser of the `COLOR` command.

use crate::bytes::{is_digit, lemma_prefix_len, prefix_len};
use vstd::prelude::*;
use vstd::string::StringSliceAdditionalSpecFns;

verus! {

/// An 8-bit-per-channel RGB color.
#[derive(Clone, Copy, PartialEq, Eq, Structural, Debug)]
pub struct Rgb {
    pub r: u8,
    pub g: u8,
    pub b: u8,
}

/// A packed 16-bit RGB565 pixel value: 5 bits of red, 6 of green, 5 of blue.
#[derive(Clone, Copy, PartialEq, Eq, Structural, Debug)]
pub struct ColorRgb565(pub u16);

/// The RGB565 packing: each channel keeps its high bits (red and blue drop
/// their low 3 bits, green its low 2), and the fields sit at bits 11, 5, 0.
pub open spec fn spec_rgb565(r: u8, g: u8, b: u8) -> u16 {
    ((((r as u16) >> 3) << 11) | (((g as u16) >> 2) << 5) | ((b as u16) >> 3)) as u16
}

/// Packs an RGB triple into the display's native RGB565 pixel format.
pub fn rgb_to_rgb565(r: u8, g: u8, b: u8) -> (c: ColorRgb565)
    ensures
        c.0 == spec_rgb565(r, g, b),
{
    let r5 = ((r as u16) >> 3) & 0x1f;
    let g6 = ((g as u16) >> 2) & 0x3f;
    let b5 = ((b as u16) >> 3) & 0x1f;
    proof {
        assert(((((r as u16) >> 3) & 0x1f) << 11) | ((((g as u16) >> 2) & 0x3f) << 5) | (((b
            as u16) >> 3) & 0x1f) == spec_rgb565(r, g, b)) by (bit_vector);
    }
    ColorRgb565((r5 << 11) | (g6 << 5) | b5)
}

/// ASCII hex digit, either case.
pub open spec fn is_hex_digit(b: u8) -> bool {
    is_digit(b) || (65 <= b <= 70) || (97 <= b <= 102)
}

/// The value of one hex digit.
pub open spec fn hex_val(b: u8) -> int {
    if is_digit(b) {
        b - 48
    } else if 65 <= b <= 70 {
        b - 55
    } else {
        b - 87
    }
}

/// The byte `#`, as a predicate value.
pub open spec fn hash_pred() -> spec_fn(u8) -> bool {
    |b: u8| b == 35
}

/// `s` with every leading `#` removed.
pub open spec fn strip_hashes(s: Seq<u8>) -> Seq<u8> {
    s.skip(prefix_len(s, hash_pred()))
}

/// Whether `s`, after stripping leading `#`s, is six hex digits.
pub open spec fn valid_hex_color(s: Seq<u8>) -> bool {
    let h = strip_hashes(s);
    h.len() == 6 && forall|i: int| 0 <= i < 6 ==> is_hex_digit(#[trigger] h[i])
}

/// What the hex color parser yields: the six digits read pairwise as the
/// red, green and blue channels; anything malformed falls back to pure
/// green.
pub open spec fn spec_parse_hex(s: Seq<u8>) -> Rgb {
    let h = strip_hashes(s);
    if valid_hex_color(s) {
        Rgb {
            r: (16 * hex_val(h[0]) + hex_val(h[1])) as u8,
            g: (16 * hex_val(h[2]) + hex_val(h[3])) as u8,
            b: (16 * hex_val(h[4]) + hex_val(h[5])) as u8,
        }
    } else {
        Rgb { r: 0, g: 255, b: 0 }
    }
}

/// Reads one hex digit; `None` if the byte is not one.
fn hex_digit(b: u8) -> (r: Option<u8>)
    ensures
        r is Some <==> is_hex_digit(b),
        r is Some ==> r->Some_0 == hex_val(b),
{
    if 48 <= b && b <= 57 {
        Some(b - 48)
    } else if 65 <= b && b <= 70 {
        Some(b - 55)
    } else if 97 <= b && b <= 102 {
        Some(b - 87)
    } else {
        None
    }
}

/// Reads the two hex digits at `h[i]`, `h[i + 1]` as one channel.
fn hex_pair(h: &[u8], i: usize) -> (r: Option<u8>)
    requires
        i + 2 <= h@.len(),
    ensures
        r is Some <==> is_hex_digit(h@[i as int]) && is_hex_digit(h@[i + 1]),
        r is Some ==> r->Some_0 == 16 * hex_val(h@[i as int]) + hex_val(h@[i + 1]),
{
    let hi = hex_digit(h[i]);
    let lo = hex_digit(h[i + 1]);
    match (hi, lo) {
        (Some(a), Some(b)) => Some(16 * a + b),
        _ => None,
    }
}

/// Parses a `#rrggbb` hex color from raw bytes. Any number of leading
/// `#`s is stripped; if what remains is not exactly six hex digits the
/// result falls back to pure green.
pub fn parse_hex_bytes(sb: &[u8]) -> (c: Rgb)
    ensures
        c == spec_parse_hex(sb@),
{
    let n = sb.len();
    let mut start: usize = 0;
    while start < n && sb[start] == 35
        invariant
            0 <= start <= n == sb@.len(),
            forall|j: int| 0 <= j < start ==> sb@[j] == 35,
        decreases n - start,
    {
        start = start + 1;
    }
    proof {
        lemma_prefix_len(sb@, hash_pred(), start as int);
    }
    let ghost h = strip_hashes(sb@);
    if n - start != 6 {
        return Rgb { r: 0, g: 255, b: 0 };
    }
    proof {
        assert(forall|i: int| 0 <= i < 6 ==> h[i] == sb@[start + i]);
    }
    let hex = vstd::slice::slice_subrange(sb, start, n);
    let r = hex_pair(hex, 0);
    let g = hex_pair(hex, 2);
    let b = hex_pair(hex, 4);
    match (r, g, b) {
        (Some(r), Some(g), Some(b)) => Rgb { r, g, b },
        _ => {
            proof {
                assert(!valid_hex_color(sb@));
            }
            Rgb { r: 0, g: 255, b: 0 }
        },
    }
}

/// Parses a `#rrggbb` hex color from a string, as the `COLOR` command and
/// the startup configuration read it.
pub fn parse_hex_color(s: &str) -> (c: Rgb)
    ensures
        c == spec_parse_hex(s.spec_bytes()),
{
    parse_hex_bytes(s.as_bytes())
}

/// The RGB565 fields recover each channel's kept high bits: the packing
/// truncates red and blue to 5 bits and green to 6, and nothing else.
pub proof fn lemma_rgb565_fields(r: u8, g: u8, b: u8)
    ensures
        spec_rgb565(r, g, b) >> 11 == r >> 3,
        (spec_rgb565(r, g, b) >> 5) & 0x3f == g >> 2,
        spec_rgb565(r, g, b) & 0x1f == b >> 3,
{
    assert(((((((r as u16) >> 3) << 11) | (((g as u16) >> 2) << 5) | ((b as u16) >> 3)) as u16)
        >> 11) == (r >> 3) as u16 && ((((((r as u16) >> 3) << 11) | (((g as u16) >> 2) << 5) | ((b
        as u16) >> 3)) as u16) >> 5) & 0x3f == (g >> 2) as u16 && (((((r as u16) >> 3) << 11) | (((
    g as u16) >> 2) << 5) | ((b as u16) >> 3)) as u16) & 0x1f == (b >> 3) as u16) by (bit_vector);
}

/// Round trip from a well-formed `#rrggbb` string through the parser and
/// the RGB565 packer: each 5- or 6-bit field of the packed pixel is exactly
/// the truncation of the channel the parser read.
pub proof fn lemma_hex_color_rgb565_round_trip(s: Seq<u8>)
    requires
        valid_hex_color(s),
    ensures
        spec_rgb565(spec_parse_hex(s).r, spec_parse_hex(s).g, spec_parse_hex(s).b) >> 11
            == spec_parse_hex(s).r >> 3,
        (spec_rgb565(spec_parse_hex(s).r, spec_parse_hex(s).g, spec_parse_hex(s).b) >> 5) & 0x3f
            == spec_parse_hex(s).g >> 2,
        spec_rgb565(spec_parse_hex(s).r, spec_parse_hex(s).g, spec_parse_hex(s).b) & 0x1f
            == spec_parse_hex(s).b >> 3,
{
    let c = spec_parse_hex(s);
    lemma_rgb565_fields(c.r, c.g, c.b);
}

} // verus!
