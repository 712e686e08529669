//! The command interpreter: a state machine over line-oriented text
//! commands.
//!
//! Each line is trimmed and split on ASCII whitespace. The first token
//! selects the command; `TIME` and `DATE` take the rest of the line
//! verbatim (trimmed), `BRIGHT`, `COLOR` and `SHIFT` take further tokens.
//! Parse failures never abort: each numeric argument has a documented
//! fallback, and an unknown command changes nothing at all.

use crate::bytes::{
    all_digits, dec_val, digits_check, digits_only, first_token, is_digit, is_ws,
    lemma_dec_val_nonneg, non_ws_pred, parse_digits_capped, pow10, prefix_len, skip_ws, token_end,
    trim_bounds, trimmed, ws_pred,
};
use crate::color::{spec_parse_hex, parse_hex_bytes};
use crate::state::{RenderState, StateModel, state_wf};
use vstd::prelude::*;

verus! {

/// What the caller must do after a line: re-render the frame, stop
/// processing input altogether, or nothing.
#[derive(Clone, Copy, PartialEq, Eq, Structural, Debug)]
pub enum Action {
    Render,
    Quit,
    Ignore,
}

/// Whether `kw` is the keyword `TIME`.
pub open spec fn is_kw_time(kw: Seq<u8>) -> bool {
    kw.len() == 4 && kw[0] == 84 && kw[1] == 73 && kw[2] == 77 && kw[3] == 69
}

/// Whether `kw` is the keyword `DATE`.
pub open spec fn is_kw_date(kw: Seq<u8>) -> bool {
    kw.len() == 4 && kw[0] == 68 && kw[1] == 65 && kw[2] == 84 && kw[3] == 69
}

/// Whether `kw` is the keyword `BRIGHT`.
pub open spec fn is_kw_bright(kw: Seq<u8>) -> bool {
    kw.len() == 6 && kw[0] == 66 && kw[1] == 82 && kw[2] == 73 && kw[3] == 71 && kw[4] == 72
        && kw[5] == 84
}

/// Whether `kw` is the keyword `COLOR`.
pub open spec fn is_kw_color(kw: Seq<u8>) -> bool {
    kw.len() == 5 && kw[0] == 67 && kw[1] == 79 && kw[2] == 76 && kw[3] == 79 && kw[4] == 82
}

/// Whether `kw` is the keyword `SHIFT`.
pub open spec fn is_kw_shift(kw: Seq<u8>) -> bool {
    kw.len() == 5 && kw[0] == 83 && kw[1] == 72 && kw[2] == 73 && kw[3] == 70 && kw[4] == 84
}

/// Whether `kw` is the keyword `QUIT`.
pub open spec fn is_kw_quit(kw: Seq<u8>) -> bool {
    kw.len() == 4 && kw[0] == 81 && kw[1] == 85 && kw[2] == 73 && kw[3] == 84
}

/// `s` with its leading whitespace removed.
pub open spec fn after_ws(s: Seq<u8>) -> Seq<u8> {
    s.skip(prefix_len(s, ws_pred()))
}

/// `s` with its first token and the following whitespace removed.
pub open spec fn skip_token(s: Seq<u8>) -> Seq<u8> {
    after_ws(s.skip(prefix_len(s, non_ws_pred())))
}

/// The second whitespace-separated token of a trimmed line.
pub open spec fn token2(t: Seq<u8>) -> Seq<u8> {
    first_token(skip_token(t))
}

/// The third whitespace-separated token of a trimmed line.
pub open spec fn token3(t: Seq<u8>) -> Seq<u8> {
    first_token(skip_token(skip_token(t)))
}

/// The sign and magnitude of a numeral: one leading `+` or `-` is split
/// off; the boolean is true for `-`.
pub open spec fn sign_split(s: Seq<u8>) -> (bool, Seq<u8>) {
    if s.len() > 0 && (s[0] == 43 || s[0] == 45) {
        (s[0] == 45, s.drop_first())
    } else {
        (false, s)
    }
}

/// What a `SHIFT` operand yields: a well-formed signed decimal integer
/// (within the machine's signed 64-bit range, as the standard parser
/// accepts) clamped to [-10, 10]; anything else falls back to 0.
pub open spec fn spec_shift_val(s: Seq<u8>) -> int {
    let neg = sign_split(s).0;
    let mag = sign_split(s).1;
    if all_digits(mag) && dec_val(mag) <= (if neg {
        0x8000000000000000int
    } else {
        0x7fffffffffffffffint
    }) {
        let v = if neg {
            -dec_val(mag)
        } else {
            dec_val(mag)
        };
        if v < -10 {
            -10
        } else if v > 10 {
            10
        } else {
            v
        }
    } else {
        0
    }
}

/// Bytes that are not a decimal point.
pub open spec fn non_dot_pred() -> spec_fn(u8) -> bool {
    |b: u8| b != 46
}

/// Bytes that are not an exponent marker (`e` or `E`).
pub open spec fn non_exp_pred() -> spec_fn(u8) -> bool {
    |b: u8| b != 101 && b != 69
}

/// The byte `0`, as a predicate value.
pub open spec fn zero_pred() -> spec_fn(u8) -> bool {
    |b: u8| b == 48
}

/// The magnitude an exponent's digit string denotes. One with more than 19
/// significant digits saturates to a power of ten far beyond what could
/// shift any buffer-sized mantissa back into range, so the final clamp
/// makes the saturation invisible.
pub open spec fn spec_exp_mag(edig: Seq<u8>) -> int {
    let ez = edig.skip(prefix_len(edig, zero_pred()));
    if ez.len() > 19 {
        pow10(25)
    } else {
        dec_val(ez)
    }
}

/// The first `p` digits of the digit string `m`, read as an integer: the
/// whole of `m` shifted up when `p` runs past its end, nothing at all when
/// `p` is not positive.
pub open spec fn spec_millis_at(m: Seq<u8>, p: int) -> int {
    if p <= 0 {
        0
    } else if p >= m.len() {
        dec_val(m) * pow10((p - m.len()) as nat)
    } else {
        dec_val(m.take(p))
    }
}

/// What a `BRIGHT` operand yields, in thousandths of full brightness. The
/// grammar is the standard float parser's finite decimal forms:
/// `[sign] digits [. digits] [e|E [sign] digits]`, with at least one
/// mantissa digit. The denoted value is truncated to thousandths and
/// clamped to [0, 1000]; anything unparsable falls back to full
/// brightness. With mantissa digits `m` (integer and fraction run
/// together), the truncated thousandths are the digits of `m` left of
/// position `ip.len() + exponent + 3`.
pub open spec fn spec_bright_millis(s: Seq<u8>) -> int {
    let neg = sign_split(s).0;
    let mag = sign_split(s).1;
    let me = prefix_len(mag, non_exp_pred());
    let mant = mag.take(me);
    let has_exp = me < mag.len();
    let eneg = has_exp && sign_split(mag.skip(me + 1)).0;
    let edig = if has_exp {
        sign_split(mag.skip(me + 1)).1
    } else {
        Seq::<u8>::empty()
    };
    let d = prefix_len(mant, non_dot_pred());
    let ip = mant.take(d);
    let fp = if d == mant.len() {
        Seq::<u8>::empty()
    } else {
        mant.skip(d + 1)
    };
    let valid = digits_only(ip) && digits_only(fp) && ip.len() + fp.len() > 0 && (!has_exp
        || all_digits(edig));
    let e_val = if !has_exp {
        0int
    } else if eneg {
        -spec_exp_mag(edig)
    } else {
        spec_exp_mag(edig)
    };
    let millis = spec_millis_at(ip + fp, ip.len() + e_val + 3);
    if !valid {
        1000
    } else if neg {
        0
    } else if millis > 1000 {
        1000
    } else {
        millis
    }
}

/// Parses one `SHIFT` operand.
pub fn parse_shift(s: &[u8]) -> (r: i32)
    ensures
        r == spec_shift_val(s@),
        -10 <= r <= 10,
{
    let n = s.len();
    let mut neg = false;
    let mut start: usize = 0;
    if n > 0 && (s[0] == 43 || s[0] == 45) {
        neg = s[0] == 45;
        start = 1;
    }
    let mag = vstd::slice::slice_subrange(s, start, n);
    proof {
        assert(mag@ =~= sign_split(s@).1);
        assert(neg == sign_split(s@).0);
    }
    match parse_digits_capped(mag, u64::MAX) {
        None => 0,
        Some(m) => {
            let bound: u64 = if neg {
                0x8000000000000000
            } else {
                0x7fffffffffffffff
            };
            if m > bound {
                0
            } else if m > 10 {
                if neg {
                    -10
                } else {
                    10
                }
            } else if neg {
                -(m as i32)
            } else {
                m as i32
            }
        },
    }
}

/// The concatenation of two byte slices.
fn concat_bytes(a: &[u8], b: &[u8]) -> (v: Vec<u8>)
    ensures
        v@ == a@ + b@,
{
    let mut v: Vec<u8> = Vec::new();
    let mut i: usize = 0;
    while i < a.len()
        invariant
            0 <= i <= a@.len(),
            v@ =~= a@.take(i as int),
        decreases a@.len() - i,
    {
        v.push(a[i]);
        proof {
            assert(a@.take(i as int).push(a@[i as int]) =~= a@.take(i + 1));
        }
        i = i + 1;
    }
    let mut j: usize = 0;
    while j < b.len()
        invariant
            0 <= j <= b@.len(),
            v@ =~= a@ + b@.take(j as int),
        decreases b@.len() - j,
    {
        v.push(b[j]);
        proof {
            assert((a@ + b@.take(j as int)).push(b@[j as int]) =~= a@ + b@.take(j + 1));
        }
        j = j + 1;
    }
    proof {
        assert(b@.take(b@.len() as int) =~= b@);
        assert(v@ =~= a@ + b@);
    }
    v
}

/// Reads the thousandths value `spec_millis_at(m@, p)` from the mantissa
/// digits and the resolved digit position, clamped to 1000.
fn clamp_millis(m: &[u8], p: i128) -> (r: u32)
    requires
        digits_only(m@),
        m@.len() >= 1,
    ensures
        r == if spec_millis_at(m@, p as int) > 1000 {
            1000int
        } else {
            spec_millis_at(m@, p as int)
        },
        r <= 1000,
{
    proof {
        lemma_dec_val_nonneg(m@);
    }
    let mval: u64 = match parse_digits_capped(m, 2000) {
        Some(v) => v,
        None => {
            proof {
                assert(false);
            }
            0
        },
    };
    let mlen = m.len();
    if p <= 0 {
        return 0;
    }
    if p >= mlen as i128 {
        let shift: i128 = p - mlen as i128;
        if mval == 0 {
            return 0;
        }
        if shift >= 4 {
            proof {
                crate::bytes::lemma_pow10_mono(4, shift as nat);
                reveal_with_fuel(pow10, 5);
                assert(dec_val(m@) * pow10(shift as nat) >= pow10(shift as nat))
                    by (nonlinear_arith)
                    requires
                        dec_val(m@) >= 1,
                        pow10(shift as nat) >= 0,
                ;
            }
            return 1000;
        }
        let mul: u64 = if shift == 0 {
            1
        } else if shift == 1 {
            10
        } else if shift == 2 {
            100
        } else {
            1000
        };
        proof {
            reveal_with_fuel(pow10, 5);
            assert(mul == pow10(shift as nat));
            if dec_val(m@) > 2000 {
                assert(dec_val(m@) * pow10(shift as nat) >= dec_val(m@)) by (nonlinear_arith)
                    requires
                        dec_val(m@) >= 0,
                        pow10(shift as nat) >= 1,
                ;
            }
        }
        let millis: u64 = mval * mul;
        if millis > 1000 {
            return 1000;
        }
        return millis as u32;
    }
    let pu = p as usize;
    let mp_slice = vstd::slice::slice_subrange(m, 0, pu);
    proof {
        assert(mp_slice@ =~= m@.take(p as int));
        lemma_dec_val_nonneg(m@.take(p as int));
    }
    let mp: u64 = match parse_digits_capped(mp_slice, 2000) {
        Some(v) => v,
        None => {
            proof {
                assert(false);
            }
            0
        },
    };
    if mp > 1000 {
        return 1000;
    }
    mp as u32
}

/// Parses one `BRIGHT` operand into thousandths of full brightness.
#[verifier::rlimit(100)]
#[verifier::spinoff_prover]
pub fn parse_bright(s: &[u8]) -> (r: u32)
    ensures
        r == spec_bright_millis(s@),
        r <= 1000,
{
    let n = s.len();
    let mut neg = false;
    let mut start: usize = 0;
    if n > 0 && (s[0] == 43 || s[0] == 45) {
        neg = s[0] == 45;
        start = 1;
    }
    let ghost mag = s@.subrange(start as int, n as int);
    proof {
        assert(mag =~= sign_split(s@).1);
        assert(neg == sign_split(s@).0);
    }
    // Find the exponent marker, if any.
    let mut epos: usize = start;
    while epos < n && s[epos] != 101 && s[epos] != 69
        invariant
            start <= epos <= n == s@.len(),
            forall|j: int| start <= j < epos ==> s@[j] != 101 && s@[j] != 69,
        decreases n - epos,
    {
        epos = epos + 1;
    }
    proof {
        crate::bytes::lemma_prefix_len(mag, non_exp_pred(), epos - start);
    }
    let ghost mant = mag.take(epos - start);
    let has_exp = epos < n;
    proof {
        assert(mant =~= s@.subrange(start as int, epos as int));
    }
    // Find the first decimal point of the mantissa.
    let mut dot: usize = start;
    while dot < epos && s[dot] != 46
        invariant
            start <= dot <= epos <= n == s@.len(),
            forall|j: int| start <= j < dot ==> s@[j] != 46,
        decreases epos - dot,
    {
        dot = dot + 1;
    }
    proof {
        crate::bytes::lemma_prefix_len(mant, non_dot_pred(), dot - start);
    }
    let ip = vstd::slice::slice_subrange(s, start, dot);
    let fe: usize = if dot < epos {
        dot + 1
    } else {
        epos
    };
    let fp = vstd::slice::slice_subrange(s, fe, epos);
    proof {
        assert(ip@ =~= mant.take(dot - start));
        if dot < epos {
            assert(fp@ =~= mant.skip(dot - start + 1));
        } else {
            assert(fp@ =~= Seq::<u8>::empty());
        }
    }
    let m_ok = digits_check(ip) && digits_check(fp) && ip.len() + fp.len() > 0;
    // Exponent sign and digits.
    let mut eneg = false;
    let mut ed0: usize = n;
    if has_exp {
        ed0 = epos + 1;
        if ed0 < n && (s[ed0] == 43 || s[ed0] == 45) {
            eneg = s[ed0] == 45;
            ed0 = ed0 + 1;
        }
    }
    let ghost edig = if has_exp {
        sign_split(mag.skip(epos - start + 1)).1
    } else {
        Seq::<u8>::empty()
    };
    proof {
        if has_exp {
            assert(mag.skip(epos - start + 1) =~= s@.subrange(epos + 1, n as int));
            assert(eneg == sign_split(mag.skip(epos - start + 1)).0);
            assert(edig =~= s@.subrange(ed0 as int, n as int));
        }
    }
    let eds = vstd::slice::slice_subrange(s, ed0, n);
    let e_ok = !has_exp || (eds.len() > 0 && digits_check(eds));
    if !(m_ok && e_ok) {
        return 1000;
    }
    if neg {
        return 0;
    }
    // The mantissa digits, integer and fraction parts run together.
    let mdig = concat_bytes(ip, fp);
    let ghost mseq = ip@ + fp@;
    proof {
        assert(forall|k: int| 0 <= k < mseq.len() ==> is_digit(#[trigger] mseq[k]));
    }
    // The exponent magnitude, with leading zeros stripped.
    let mut z: usize = ed0;
    while z < n && s[z] == 48
        invariant
            ed0 <= z <= n == s@.len(),
            forall|j: int| ed0 <= j < z ==> s@[j] == 48,
        decreases n - z,
    {
        z = z + 1;
    }
    let ghost ez = edig.skip(prefix_len(edig, zero_pred()));
    proof {
        if has_exp {
            crate::bytes::lemma_prefix_len(edig, zero_pred(), z - ed0);
            assert(ez =~= s@.subrange(z as int, n as int));
        }
    }
    let emag: i128 = if !has_exp {
        0
    } else if n - z > 19 {
        proof {
            reveal_with_fuel(pow10, 26);
        }
        10000000000000000000000000
    } else {
        let ezs = vstd::slice::slice_subrange(s, z, n);
        proof {
            assert(ezs@ =~= ez);
            crate::bytes::lemma_dec_val_digits_bound(ez);
            crate::bytes::lemma_pow10_mono(ez.len() as nat, 19);
            reveal_with_fuel(pow10, 20);
        }
        let v = match parse_digits_capped(ezs, u64::MAX) {
            Some(v) => v,
            None => 0,
        };
        v as i128
    };
    proof {
        if has_exp {
            assert(emag == spec_exp_mag(edig));
        }
    }
    let p: i128 = ip.len() as i128 + 3 + (if has_exp && eneg {
        -emag
    } else {
        emag
    });
    clamp_millis(mdig.as_slice(), p)
}

/// What the caller must do for a given line.
pub open spec fn spec_action(line: Seq<u8>) -> Action {
    let kw = first_token(trimmed(line));
    if is_kw_quit(kw) {
        Action::Quit
    } else if is_kw_time(kw) || is_kw_date(kw) || is_kw_bright(kw) || is_kw_color(kw)
        || is_kw_shift(kw) {
        Action::Render
    } else {
        Action::Ignore
    }
}

/// How one line transforms the render state. `TIME` and `DATE` take the
/// rest of the line (trimmed); `BRIGHT` and `COLOR` their first operand,
/// skipped entirely when missing; `SHIFT` needs both operands or changes
/// nothing; `QUIT` and anything unrecognized leave the state untouched.
pub open spec fn spec_step(m: StateModel, line: Seq<u8>) -> StateModel {
    let t = trimmed(line);
    let kw = first_token(t);
    if is_kw_time(kw) {
        StateModel { time_text: trimmed(t.skip(4)), ..m }
    } else if is_kw_date(kw) {
        StateModel { date_text: trimmed(t.skip(4)), ..m }
    } else if is_kw_bright(kw) {
        if token2(t).len() > 0 {
            StateModel { bright: spec_bright_millis(token2(t)), ..m }
        } else {
            m
        }
    } else if is_kw_color(kw) {
        if token2(t).len() > 0 {
            StateModel { color: spec_parse_hex(token2(t)), ..m }
        } else {
            m
        }
    } else if is_kw_shift(kw) {
        if token2(t).len() > 0 && token3(t).len() > 0 {
            StateModel {
                shift_x: spec_shift_val(token2(t)),
                shift_y: spec_shift_val(token3(t)),
                ..m
            }
        } else {
            m
        }
    } else {
        m
    }
}

/// Interprets one command line against the render state. The new state is
/// exactly `spec_step` of the old, the returned action exactly
/// `spec_action` of the line, and the state invariant is preserved — in
/// particular brightness stays in [0, 1000] and each shift in [-10, 10].
#[verifier::rlimit(100)]
pub fn handle_line(st: &mut RenderState, line: &[u8]) -> (act: Action)
    requires
        state_wf(*old(st)),
    ensures
        state_wf(*final(st)),
        final(st)@ == spec_step(old(st)@, line@),
        act == spec_action(line@),
{
    let (lo, hi) = trim_bounds(line);
    let ghost t = trimmed(line@);
    let t1e = token_end(line, lo, hi);
    let ghost kw = first_token(t);
    proof {
        assert(kw == line@.subrange(lo as int, t1e as int));
    }
    let klen = t1e - lo;
    let is_time = klen == 4 && line[lo] == 84 && line[lo + 1] == 73 && line[lo + 2] == 77 && line[lo
        + 3] == 69;
    let is_date = klen == 4 && line[lo] == 68 && line[lo + 1] == 65 && line[lo + 2] == 84 && line[lo
        + 3] == 69;
    let is_bright = klen == 6 && line[lo] == 66 && line[lo + 1] == 82 && line[lo + 2] == 73
        && line[lo + 3] == 71 && line[lo + 4] == 72 && line[lo + 5] == 84;
    let is_color = klen == 5 && line[lo] == 67 && line[lo + 1] == 79 && line[lo + 2] == 76 && line[
        lo + 3] == 79 && line[lo + 4] == 82;
    let is_shift = klen == 5 && line[lo] == 83 && line[lo + 1] == 72 && line[lo + 2] == 73 && line[
        lo + 3] == 70 && line[lo + 4] == 84;
    let is_quit = klen == 4 && line[lo] == 81 && line[lo + 1] == 85 && line[lo + 2] == 73 && line[lo
        + 3] == 84;
    proof {
        assert(kw.len() == klen);
        assert(forall|i: int| 0 <= i < klen ==> kw[i] == line@[lo + i]);
        assert(is_time == is_kw_time(kw));
        assert(is_date == is_kw_date(kw));
        assert(is_bright == is_kw_bright(kw));
        assert(is_color == is_kw_color(kw));
        assert(is_shift == is_kw_shift(kw));
        assert(is_quit == is_kw_quit(kw));
    }
    if is_time || is_date {
        let a = skip_ws(line, t1e, hi);
        proof {
            assert(t.skip(4) =~= line@.subrange(t1e as int, hi as int));
            let rest = line@.subrange(t1e as int, hi as int);
            assert(rest.skip(a - t1e) =~= line@.subrange(a as int, hi as int));
            let arg = line@.subrange(a as int, hi as int);
            if a < hi {
                assert(!is_ws(line@[hi - 1]));
                assert(arg.len() > 0 && !is_ws(arg[arg.len() - 1]));
            }
            crate::bytes::lemma_suffix_len(arg, ws_pred(), arg.len() as int);
            assert(trimmed(t.skip(4)) =~= arg);
        }
        let arg = vstd::slice::slice_to_vec(vstd::slice::slice_subrange(line, a, hi));
        if is_time {
            st.time_text = arg;
        } else {
            st.date_text = arg;
        }
        proof {
            assert(final(st)@ =~= spec_step(old(st)@, line@));
        }
        return Action::Render;
    }
    if is_bright || is_color || is_shift {
        let a2 = skip_ws(line, t1e, hi);
        let t2e = token_end(line, a2, hi);
        proof {
            assert(t.skip(t1e - lo) =~= line@.subrange(t1e as int, hi as int));
            let rest1 = line@.subrange(t1e as int, hi as int);
            assert(rest1.skip(a2 - t1e) =~= line@.subrange(a2 as int, hi as int));
            assert(skip_token(t) == line@.subrange(a2 as int, hi as int));
            assert(token2(t) == line@.subrange(a2 as int, t2e as int));
        }
        if is_bright {
            if t2e > a2 {
                let tok = vstd::slice::slice_subrange(line, a2, t2e);
                let v = parse_bright(tok);
                st.bright = v;
            }
            proof {
                assert(final(st)@ =~= spec_step(old(st)@, line@));
            }
            return Action::Render;
        }
        if is_color {
            if t2e > a2 {
                let tok = vstd::slice::slice_subrange(line, a2, t2e);
                let c = parse_hex_bytes(tok);
                st.color = c;
            }
            proof {
                assert(final(st)@ =~= spec_step(old(st)@, line@));
            }
            return Action::Render;
        }
        let a3 = skip_ws(line, t2e, hi);
        let t3e = token_end(line, a3, hi);
        proof {
            let s2 = line@.subrange(a2 as int, hi as int);
            assert(s2.skip(t2e - a2) =~= line@.subrange(t2e as int, hi as int));
            let rest2 = line@.subrange(t2e as int, hi as int);
            assert(rest2.skip(a3 - t2e) =~= line@.subrange(a3 as int, hi as int));
            assert(skip_token(skip_token(t)) == line@.subrange(a3 as int, hi as int));
            assert(token3(t) == line@.subrange(a3 as int, t3e as int));
        }
        if t2e > a2 && t3e > a3 {
            let sx = parse_shift(vstd::slice::slice_subrange(line, a2, t2e));
            let sy = parse_shift(vstd::slice::slice_subrange(line, a3, t3e));
            st.shift_x = sx;
            st.shift_y = sy;
        }
        proof {
            assert(final(st)@ =~= spec_step(old(st)@, line@));
        }
        return Action::Render;
    }
    proof {
        assert(final(st)@ =~= spec_step(old(st)@, line@));
    }
    if is_quit {
        Action::Quit
    } else {
        Action::Ignore
    }
}

/// The state after a whole buffered input: lines are applied in order,
/// and a `QUIT` line stops processing at once.
pub open spec fn spec_run(m: StateModel, lines: Seq<Seq<u8>>) -> StateModel
    decreases lines.len(),
{
    if lines.len() == 0 {
        m
    } else if spec_action(lines[0]) == Action::Quit {
        m
    } else {
        spec_run(spec_step(m, lines[0]), lines.drop_first())
    }
}

/// `QUIT` terminates processing of any further buffered input: whatever
/// lines follow it, the resulting state is the one reached at the `QUIT`.
pub proof fn lemma_quit_stops(
    m: StateModel,
    before: Seq<Seq<u8>>,
    quit_line: Seq<u8>,
    rest: Seq<Seq<u8>>,
)
    requires
        spec_action(quit_line) == Action::Quit,
    ensures
        spec_run(m, before.push(quit_line) + rest) == spec_run(m, before.push(quit_line)),
    decreases before.len(),
{
    let all = before.push(quit_line) + rest;
    let stop = before.push(quit_line);
    if before.len() == 0 {
        assert(all[0] == quit_line);
        assert(stop[0] == quit_line);
    } else {
        assert(all[0] == before[0]);
        assert(stop[0] == before[0]);
        if spec_action(before[0]) == Action::Quit {
        } else {
            assert(all.drop_first() =~= before.drop_first().push(quit_line) + rest);
            assert(stop.drop_first() =~= before.drop_first().push(quit_line));
            lemma_quit_stops(spec_step(m, before[0]), before.drop_first(), quit_line, rest);
        }
    }
}

} // verus!
