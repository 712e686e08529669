//! Byte-level text utilities: ASCII whitespace trimming, token splitting,
//! and the decimal parsers behind the command protocol's numeric arguments.
//!
//! Command lines arrive as raw bytes; only ASCII is ever interpreted, so all
//! specifications are over `Seq<u8>`.

use vstd::prelude::*;

verus! {

/// ASCII whitespace: space, tab, newline, vertical tab, form feed, carriage
/// return.
pub open spec fn is_ws(b: u8) -> bool {
    b == 32 || b == 9 || b == 10 || b == 11 || b == 12 || b == 13
}

/// ASCII decimal digit.
pub open spec fn is_digit(b: u8) -> bool {
    48 <= b <= 57
}

/// The predicate `is_ws` as a value, so that every use names one closure.
pub open spec fn ws_pred() -> spec_fn(u8) -> bool {
    |b: u8| is_ws(b)
}

/// Bytes that are not whitespace.
pub open spec fn non_ws_pred() -> spec_fn(u8) -> bool {
    |b: u8| !is_ws(b)
}

/// Length of the longest prefix of `s` whose bytes all satisfy `p`.
pub open spec fn prefix_len(s: Seq<u8>, p: spec_fn(u8) -> bool) -> int
    decreases s.len(),
{
    if s.len() > 0 && p(s[0]) {
        1 + prefix_len(s.drop_first(), p)
    } else {
        0
    }
}

/// Length of the longest suffix of `s` whose bytes all satisfy `p`.
pub open spec fn suffix_len(s: Seq<u8>, p: spec_fn(u8) -> bool) -> int
    decreases s.len(),
{
    if s.len() > 0 && p(s.last()) {
        1 + suffix_len(s.drop_last(), p)
    } else {
        0
    }
}

/// A scan that stops at the first byte failing `p` finds `prefix_len`.
pub proof fn lemma_prefix_len(s: Seq<u8>, p: spec_fn(u8) -> bool, i: int)
    requires
        0 <= i <= s.len(),
        forall|j: int| 0 <= j < i ==> p(s[j]),
        i == s.len() || !p(s[i]),
    ensures
        prefix_len(s, p) == i,
    decreases s.len(),
{
    if i == 0 {
    } else {
        assert(p(s[0]));
        lemma_prefix_len(s.drop_first(), p, i - 1);
    }
}

/// A backward scan that stops at the first byte failing `p` finds
/// `suffix_len`.
pub proof fn lemma_suffix_len(s: Seq<u8>, p: spec_fn(u8) -> bool, i: int)
    requires
        0 <= i <= s.len(),
        forall|j: int| i <= j < s.len() ==> p(s[j]),
        i == 0 || !p(s[i - 1]),
    ensures
        suffix_len(s, p) == s.len() - i,
    decreases s.len(),
{
    if i == s.len() {
    } else {
        assert(p(s.last()));
        lemma_suffix_len(s.drop_last(), p, i);
    }
}

/// `s` with ASCII whitespace removed from both ends.
pub open spec fn trimmed(s: Seq<u8>) -> Seq<u8> {
    let rest = s.skip(prefix_len(s, ws_pred()));
    rest.take(rest.len() - suffix_len(rest, ws_pred()))
}

/// The leading run of non-whitespace bytes of `s`.
pub open spec fn first_token(s: Seq<u8>) -> Seq<u8> {
    s.take(prefix_len(s, non_ws_pred()))
}

/// Whether `b` is ASCII whitespace.
pub fn ws_byte(b: u8) -> (r: bool)
    ensures
        r == is_ws(b),
{
    b == 32 || b == 9 || b == 10 || b == 11 || b == 12 || b == 13
}

/// Finds the bounds of `line` with whitespace trimmed from both ends:
/// `trimmed(line@)` is exactly `line[lo..hi]`.
pub fn trim_bounds(line: &[u8]) -> (r: (usize, usize))
    ensures
        0 <= r.0 <= r.1 <= line@.len(),
        trimmed(line@) == line@.subrange(r.0 as int, r.1 as int),
        r.0 < r.1 ==> !is_ws(line@[r.0 as int]) && !is_ws(line@[r.1 - 1]),
{
    let n = line.len();
    let mut lo: usize = 0;
    while lo < n && ws_byte(line[lo])
        invariant
            0 <= lo <= n == line@.len(),
            forall|j: int| 0 <= j < lo ==> is_ws(line@[j]),
        decreases n - lo,
    {
        lo = lo + 1;
    }
    proof {
        lemma_prefix_len(line@, ws_pred(), lo as int);
    }
    let ghost rest = line@.skip(lo as int);
    let mut hi: usize = n;
    while hi > lo && ws_byte(line[hi - 1])
        invariant
            lo <= hi <= n == line@.len(),
            forall|j: int| hi <= j < n ==> is_ws(line@[j]),
        decreases hi,
    {
        hi = hi - 1;
    }
    proof {
        assert(forall|j: int| hi - lo <= j < rest.len() ==> is_ws(rest[j]));
        if hi > lo {
            assert(!is_ws(rest[hi - lo - 1]));
        }
        lemma_suffix_len(rest, ws_pred(), hi - lo);
        assert(trimmed(line@) =~= line@.subrange(lo as int, hi as int));
    }
    (lo, hi)
}

/// Finds the end of the first token of the already-trimmed range
/// `line[lo..hi]`: the token is `line[lo..t]`.
pub fn token_end(line: &[u8], lo: usize, hi: usize) -> (t: usize)
    requires
        0 <= lo <= hi <= line@.len(),
    ensures
        lo <= t <= hi,
        first_token(line@.subrange(lo as int, hi as int)) == line@.subrange(
            lo as int,
            t as int,
        ),
        prefix_len(line@.subrange(lo as int, hi as int), non_ws_pred()) == t - lo,
        forall|j: int| lo <= j < t ==> !is_ws(line@[j]),
        t < hi ==> is_ws(line@[t as int]),
{
    let mut t: usize = lo;
    while t < hi && !ws_byte(line[t])
        invariant
            lo <= t <= hi <= line@.len(),
            forall|j: int| lo <= j < t ==> !is_ws(line@[j]),
        decreases hi - t,
    {
        t = t + 1;
    }
    proof {
        let s = line@.subrange(lo as int, hi as int);
        lemma_prefix_len(s, non_ws_pred(), t - lo);
        assert(first_token(s) =~= line@.subrange(lo as int, t as int));
    }
    t
}

/// Finds the first non-whitespace position at or after `lo` in
/// `line[lo..hi]`.
pub fn skip_ws(line: &[u8], lo: usize, hi: usize) -> (a: usize)
    requires
        0 <= lo <= hi <= line@.len(),
    ensures
        lo <= a <= hi,
        prefix_len(line@.subrange(lo as int, hi as int), ws_pred()) == a - lo,
        forall|j: int| lo <= j < a ==> is_ws(line@[j]),
        a < hi ==> !is_ws(line@[a as int]),
{
    let mut a: usize = lo;
    while a < hi && ws_byte(line[a])
        invariant
            lo <= a <= hi <= line@.len(),
            forall|j: int| lo <= j < a ==> is_ws(line@[j]),
        decreases hi - a,
    {
        a = a + 1;
    }
    proof {
        lemma_prefix_len(line@.subrange(lo as int, hi as int), ws_pred(), a - lo);
    }
    a
}

/// Whether every byte of `s` is a decimal digit and there is at least one.
pub open spec fn all_digits(s: Seq<u8>) -> bool {
    s.len() > 0 && forall|i: int| 0 <= i < s.len() ==> is_digit(s[i])
}

/// Whether every byte of `s` is a decimal digit (an empty `s` passes).
pub open spec fn digits_only(s: Seq<u8>) -> bool {
    forall|i: int| 0 <= i < s.len() ==> is_digit(s[i])
}

/// The value of a digit string read in base 10.
pub open spec fn dec_val(s: Seq<u8>) -> int
    decreases s.len(),
{
    if s.len() == 0 {
        0
    } else {
        10 * dec_val(s.drop_last()) + (s.last() - 48)
    }
}

/// A digit string's value never shrinks as digits are appended.
pub proof fn lemma_dec_val_nonneg(s: Seq<u8>)
    requires
        forall|i: int| 0 <= i < s.len() ==> is_digit(s[i]),
    ensures
        dec_val(s) >= 0,
    decreases s.len(),
{
    if s.len() > 0 {
        lemma_dec_val_nonneg(s.drop_last());
    }
}

/// Parses a digit string exactly: `None` on an empty string, a non-digit, or
/// a value above `usize::MAX` (a numeric overflow fails the parse, as the
/// standard integer parsers do).
pub fn parse_usize(s: &[u8]) -> (r: Option<usize>)
    ensures
        r is Some <==> all_digits(s@) && dec_val(s@) <= usize::MAX,
        r is Some ==> r->Some_0 == dec_val(s@),
{
    let n = s.len();
    if n == 0 {
        return None;
    }
    let mut acc: usize = 0;
    let mut i: usize = 0;
    while i < n
        invariant
            0 <= i <= n == s@.len(),
            forall|j: int| 0 <= j < i ==> is_digit(s@[j]),
            acc == dec_val(s@.take(i as int)),
        decreases n - i,
    {
        let b = s[i];
        if b < 48 || b > 57 {
            proof {
                assert(!is_digit(s@[i as int]));
            }
            return None;
        }
        let d = (b - 48) as usize;
        let wide: u128 = 10 * (acc as u128) + (d as u128);
        proof {
            assert(s@.take(i + 1).drop_last() =~= s@.take(i as int));
            assert(s@.take(i + 1).last() == s@[i as int]);
        }
        if wide > usize::MAX as u128 {
            proof {
                if all_digits(s@) {
                    lemma_dec_val_grows(s@, i + 1);
                }
            }
            return None;
        }
        acc = wide as usize;
        i = i + 1;
    }
    proof {
        assert(s@.take(n as int) =~= s@);
    }
    Some(acc)
}

/// Once a digit prefix exceeds `usize::MAX`, every extension of it does too.
proof fn lemma_dec_val_grows(s: Seq<u8>, i: int)
    requires
        0 <= i <= s.len(),
        forall|j: int| 0 <= j < s.len() ==> is_digit(s[j]),
        dec_val(s.take(i)) > usize::MAX,
    ensures
        dec_val(s) > usize::MAX,
    decreases s.len() - i,
{
    if i < s.len() {
        let t = s.take(i + 1);
        assert(t.drop_last() =~= s.take(i));
        lemma_dec_val_nonneg(s.take(i));
        assert(dec_val(t) == 10 * dec_val(s.take(i)) + (t.last() - 48));
        assert(10 * dec_val(s.take(i)) >= dec_val(s.take(i))) by (nonlinear_arith)
            requires
                dec_val(s.take(i)) >= 0,
        ;
        lemma_dec_val_grows(s, i + 1);
    } else {
        assert(s.take(i) =~= s);
    }
}

/// Parses a digit string with saturation: the result is the value capped at
/// `cap`. `None` only on an empty string or a non-digit.
pub fn parse_digits_capped(s: &[u8], cap: u64) -> (r: Option<u64>)
    ensures
        r is Some <==> all_digits(s@),
        r is Some ==> r->Some_0 == if dec_val(s@) <= cap {
            dec_val(s@)
        } else {
            cap as int
        },
{
    let n = s.len();
    if n == 0 {
        return None;
    }
    let mut acc: u64 = 0;
    let mut i: usize = 0;
    while i < n
        invariant
            0 <= i <= n == s@.len(),
            forall|j: int| 0 <= j < i ==> is_digit(s@[j]),
            acc <= cap,
            acc == if dec_val(s@.take(i as int)) <= cap {
                dec_val(s@.take(i as int))
            } else {
                cap as int
            },
        decreases n - i,
    {
        let b = s[i];
        if b < 48 || b > 57 {
            proof {
                assert(!is_digit(s@[i as int]));
            }
            return None;
        }
        let d = (b - 48) as u64;
        let wide: u128 = 10 * (acc as u128) + (d as u128);
        let next: u64 = if wide > cap as u128 {
            cap
        } else {
            wide as u64
        };
        proof {
            let prev = dec_val(s@.take(i as int));
            assert(s@.take(i + 1).drop_last() =~= s@.take(i as int));
            assert(s@.take(i + 1).last() == s@[i as int]);
            lemma_dec_val_nonneg(s@.take(i as int));
            if prev > cap {
                assert(10 * prev + (d as int) > cap) by (nonlinear_arith)
                    requires
                        prev > cap >= 0,
                        d >= 0,
                ;
            }
        }
        acc = next;
        i = i + 1;
    }
    proof {
        assert(s@.take(n as int) =~= s@);
    }
    Some(acc)
}

/// Ten to the power `n`.
pub open spec fn pow10(n: nat) -> int
    decreases n,
{
    if n == 0 {
        1
    } else {
        10 * pow10((n - 1) as nat)
    }
}

/// Powers of ten are positive.
pub proof fn lemma_pow10_pos(n: nat)
    ensures
        pow10(n) >= 1,
    decreases n,
{
    if n > 0 {
        lemma_pow10_pos((n - 1) as nat);
    }
}

/// Powers of ten grow with the exponent.
pub proof fn lemma_pow10_mono(a: nat, b: nat)
    requires
        a <= b,
    ensures
        pow10(a) <= pow10(b),
    decreases b,
{
    if a < b {
        lemma_pow10_mono(a, (b - 1) as nat);
        lemma_pow10_pos((b - 1) as nat);
    }
}

/// A digit string's value is below ten to its length.
pub proof fn lemma_dec_val_digits_bound(s: Seq<u8>)
    requires
        digits_only(s),
    ensures
        0 <= dec_val(s) < pow10(s.len() as nat),
    decreases s.len(),
{
    if s.len() > 0 {
        lemma_dec_val_digits_bound(s.drop_last());
        assert(is_digit(s.last()));
    }
}

/// Whether every byte of `s` is a decimal digit.
pub fn digits_check(s: &[u8]) -> (r: bool)
    ensures
        r == digits_only(s@),
{
    let n = s.len();
    let mut i: usize = 0;
    while i < n
        invariant
            0 <= i <= n == s@.len(),
            forall|j: int| 0 <= j < i ==> is_digit(s@[j]),
        decreases n - i,
    {
        let b = s[i];
        if b < 48 || b > 57 {
            proof {
                assert(!is_digit(s@[i as int]));
            }
            return false;
        }
        i = i + 1;
    }
    true
}

} // verus!
