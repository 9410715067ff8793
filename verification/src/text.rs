//! Reading tables and numbers out of plain text, byte by byte.

use vstd::prelude::*;
use vstd::slice::slice_subrange;
use vstd::utf8::{decode_utf8, valid_utf8};

verus! {

/// `s` cut at every `sep`: one field more than there are separators.
pub open spec fn fields_of(s: Seq<u8>, sep: u8) -> Seq<Seq<u8>>
    decreases s.len(),
{
    if s.len() == 0 {
        seq![Seq::empty()]
    } else {
        let init = fields_of(s.drop_last(), sep);
        if s.last() == sep {
            init.push(Seq::empty())
        } else {
            init.update(init.len() - 1, init.last().push(s.last()))
        }
    }
}

/// There is always a field, the last one.
pub proof fn lemma_fields_nonempty(s: Seq<u8>, sep: u8)
    ensures
        fields_of(s, sep).len() >= 1,
    decreases s.len(),
{
    if s.len() > 0 {
        lemma_fields_nonempty(s.drop_last(), sep);
    }
}

/// The bytes of `s` between two positions.
pub open spec fn span(s: Seq<u8>, at: (usize, usize)) -> Seq<u8> {
    s.subrange(at.0 as int, at.1 as int)
}

/// Cuts `s[lo..hi]` at every `sep`; the fields are given by their positions
/// in `s`.
pub fn split_ranges(s: &[u8], lo: usize, hi: usize, sep: u8) -> (out: Vec<(usize, usize)>)
    requires
        lo <= hi <= s@.len(),
    ensures
        out@.len() == fields_of(s@.subrange(lo as int, hi as int), sep).len(),
        forall|k: int|
            0 <= k < out@.len() ==> lo <= (#[trigger] out@[k]).0 <= out@[k].1 <= hi && span(
                s@,
                out@[k],
            ) == fields_of(s@.subrange(lo as int, hi as int), sep)[k],
{
    let mut out: Vec<(usize, usize)> = Vec::new();
    let mut start: usize = lo;
    let mut i: usize = lo;
    proof {
        assert(s@.subrange(lo as int, lo as int) =~= Seq::<u8>::empty());
        assert(fields_of(s@.subrange(lo as int, lo as int), sep) =~= seq![Seq::<u8>::empty()]);
    }
    while i < hi
        invariant
            lo <= start <= i <= hi <= s@.len(),
            fields_of(s@.subrange(lo as int, i as int), sep).len() == out@.len() + 1,
            fields_of(s@.subrange(lo as int, i as int), sep).last() == s@.subrange(
                start as int,
                i as int,
            ),
            forall|k: int|
                0 <= k < out@.len() ==> lo <= (#[trigger] out@[k]).0 <= out@[k].1 <= hi && span(
                    s@,
                    out@[k],
                ) == fields_of(s@.subrange(lo as int, i as int), sep)[k],
        decreases hi - i,
    {
        let ghost before = s@.subrange(lo as int, i as int);
        let ghost now = s@.subrange(lo as int, i + 1);
        assert(now.drop_last() =~= before);
        assert(now.last() == s@[i as int]);
        if s[i] == sep {
            out.push((start, i));
            start = i + 1;
            assert(s@.subrange(start as int, i + 1) =~= Seq::<u8>::empty());
        } else {
            assert(s@.subrange(start as int, i + 1) =~= s@.subrange(start as int, i as int).push(
                s@[i as int],
            ));
        }
        i += 1;
    }
    out.push((start, hi));
    out
}

/// Blank, tab, line feed, vertical tab, form feed or carriage return.
pub open spec fn is_space(b: u8) -> bool {
    b == 32 || (9 <= b <= 13)
}

/// `s` without the white space at its start.
pub open spec fn trim_start_of(s: Seq<u8>) -> Seq<u8>
    decreases s.len(),
{
    if s.len() > 0 && is_space(s[0]) {
        trim_start_of(s.subrange(1, s.len() as int))
    } else {
        s
    }
}

/// `s` without the white space at its end.
pub open spec fn trim_end_of(s: Seq<u8>) -> Seq<u8>
    decreases s.len(),
{
    if s.len() > 0 && is_space(s.last()) {
        trim_end_of(s.drop_last())
    } else {
        s
    }
}

/// `s` without the white space at its two ends.
pub open spec fn trim_of(s: Seq<u8>) -> Seq<u8> {
    trim_end_of(trim_start_of(s))
}

fn space(b: u8) -> (yes: bool)
    ensures
        yes == is_space(b),
{
    b == 32 || (9 <= b && b <= 13)
}

/// The positions of `s[lo..hi]` without the white space at its two ends.
pub fn trim_range(s: &[u8], lo: usize, hi: usize) -> (out: (usize, usize))
    requires
        lo <= hi <= s@.len(),
    ensures
        lo <= out.0 <= out.1 <= hi,
        span(s@, out) == trim_of(s@.subrange(lo as int, hi as int)),
{
    let mut a: usize = lo;
    while a < hi && space(s[a])
        invariant
            lo <= a <= hi <= s@.len(),
            trim_start_of(s@.subrange(a as int, hi as int)) == trim_start_of(
                s@.subrange(lo as int, hi as int),
            ),
        decreases hi - a,
    {
        assert(s@.subrange(a as int, hi as int).subrange(1, hi - a) =~= s@.subrange(
            a + 1,
            hi as int,
        ));
        a += 1;
    }
    let mut b: usize = hi;
    while b > a && space(s[b - 1])
        invariant
            a <= b <= hi <= s@.len(),
            trim_end_of(s@.subrange(a as int, b as int)) == trim_end_of(
                s@.subrange(a as int, hi as int),
            ),
        decreases b - a,
    {
        assert(s@.subrange(a as int, b as int).drop_last() =~= s@.subrange(a as int, b - 1));
        b -= 1;
    }
    (a, b)
}

/// Whether `s[at.0..at.1]` holds exactly the bytes of `word`.
pub fn range_is(s: &[u8], at: (usize, usize), word: &[u8]) -> (same: bool)
    requires
        at.0 <= at.1 <= s@.len(),
    ensures
        same == (span(s@, at) == word@),
{
    if at.1 - at.0 != word.len() {
        return false;
    }
    let n: usize = word.len();
    let mut i: usize = 0;
    while i < n
        invariant
            i <= n,
            n == word@.len(),
            at.1 - at.0 == n,
            at.1 <= s@.len(),
            forall|j: int| 0 <= j < i ==> s@[at.0 + j] == #[trigger] word@[j],
        decreases n - i,
    {
        if s[at.0 + i] != word[i] {
            assert(span(s@, at)[i as int] != word@[i as int]);
            return false;
        }
        i += 1;
    }
    assert(span(s@, at) =~= word@);
    true
}

/// The number that a run of decimal digits stands for.
pub open spec fn digits_value(s: Seq<u8>) -> int
    decreases s.len(),
{
    if s.len() == 0 {
        0
    } else {
        digits_value(s.drop_last()) * 10 + (s.last() - 48)
    }
}

/// Every byte is a decimal digit.
pub open spec fn all_digits(s: Seq<u8>) -> bool {
    forall|i: int| 0 <= i < s.len() ==> 48 <= #[trigger] s[i] <= 57
}

/// Ten to the power `n`.
pub open spec fn pow10(n: nat) -> int
    decreases n,
{
    if n == 0 {
        1
    } else {
        10 * pow10((n - 1) as nat)
    }
}

/// Position of the first `.` in `s`, or its length.
pub open spec fn point_of(s: Seq<u8>) -> int
    decreases s.len(),
{
    if s.len() == 0 {
        0
    } else if s[0] == 46 {
        0
    } else {
        1 + point_of(s.subrange(1, s.len() as int))
    }
}

/// The first `d` digits behind the point, read as a number (missing digits
/// count as zero), plus one when the digit after them is five or more.
pub open spec fn fraction_value(frac: Seq<u8>, d: nat) -> int {
    if frac.len() <= d {
        digits_value(frac) * pow10((d - frac.len()) as nat)
    } else {
        digits_value(frac.subrange(0, d as int)) + if frac[d as int] >= 53 {
            1int
        } else {
            0int
        }
    }
}

/// The number that `s` writes in decimal notation, in units of `10^-d`,
/// rounded to the nearest: digits with at most one point among them, and at
/// least one digit. `None` for anything else.
pub open spec fn decimal_of(s: Seq<u8>, d: nat) -> Option<int> {
    let p = point_of(s);
    let whole = s.subrange(0, p);
    let frac = if p < s.len() {
        s.subrange(p + 1, s.len() as int)
    } else {
        Seq::empty()
    };
    if all_digits(whole) && all_digits(frac) && whole.len() + frac.len() > 0 {
        Some(digits_value(whole) * pow10(d) + fraction_value(frac, d))
    } else {
        None
    }
}

/// As `decimal_of`, with an optional sign in front.
pub open spec fn signed_decimal_of(s: Seq<u8>, d: nat) -> Option<int> {
    if s.len() > 0 && s[0] == 45 {
        match decimal_of(s.subrange(1, s.len() as int), d) {
            Some(v) => Some(-v),
            None => None,
        }
    } else if s.len() > 0 && s[0] == 43 {
        decimal_of(s.subrange(1, s.len() as int), d)
    } else {
        decimal_of(s, d)
    }
}

proof fn lemma_point(s: Seq<u8>)
    ensures
        0 <= point_of(s) <= s.len(),
        point_of(s) < s.len() ==> s[point_of(s)] == 46,
        forall|i: int| 0 <= i < point_of(s) ==> s[i] != 46,
    decreases s.len(),
{
    if s.len() > 0 && s[0] != 46 {
        let rest = s.subrange(1, s.len() as int);
        lemma_point(rest);
        assert forall|i: int| 0 <= i < point_of(s) implies s[i] != 46 by {
            if i > 0 {
                assert(rest[i - 1] == s[i]);
            }
        }
    }
}

proof fn lemma_point_is(s: Seq<u8>, p: int)
    requires
        0 <= p <= s.len(),
        p < s.len() ==> s[p] == 46,
        forall|i: int| 0 <= i < p ==> s[i] != 46,
    ensures
        point_of(s) == p,
    decreases s.len(),
{
    if s.len() > 0 && p > 0 {
        let rest = s.subrange(1, s.len() as int);
        assert forall|i: int| 0 <= i < p - 1 implies rest[i] != 46 by {
            assert(rest[i] == s[i + 1]);
        }
        lemma_point_is(rest, p - 1);
    }
}

proof fn lemma_digits_grow(s: Seq<u8>)
    requires
        all_digits(s),
    ensures
        digits_value(s) >= 0,
        s.len() > 0 ==> digits_value(s) >= digits_value(s.drop_last()) * 10,
        s.len() > 0 ==> digits_value(s) <= digits_value(s.drop_last()) * 10 + 9,
    decreases s.len(),
{
    if s.len() > 0 {
        assert(all_digits(s.drop_last()));
        lemma_digits_grow(s.drop_last());
    }
}

/// Reads the digits of `s[lo..hi]`: their value if all are digits and the
/// value is below `2^64`.
fn read_digits(s: &[u8], lo: usize, hi: usize) -> (out: Option<u64>)
    requires
        lo <= hi <= s@.len(),
    ensures
        out is Some <==> all_digits(s@.subrange(lo as int, hi as int)) && digits_value(
            s@.subrange(lo as int, hi as int),
        ) <= u64::MAX,
        out matches Some(v) ==> v == digits_value(s@.subrange(lo as int, hi as int)),
{
    let mut acc: u128 = 0;
    let mut over: bool = false;
    let mut i: usize = lo;
    proof {
        assert(s@.subrange(lo as int, lo as int) =~= Seq::<u8>::empty());
    }
    while i < hi
        invariant
            lo <= i <= hi <= s@.len(),
            all_digits(s@.subrange(lo as int, i as int)),
            !over ==> acc == digits_value(s@.subrange(lo as int, i as int)) && acc <= u64::MAX,
            over ==> digits_value(s@.subrange(lo as int, i as int)) > u64::MAX,
        decreases hi - i,
    {
        let b: u8 = s[i];
        let ghost now = s@.subrange(lo as int, i + 1);
        assert(now.drop_last() =~= s@.subrange(lo as int, i as int));
        assert(now.last() == b);
        if b < 48 || b > 57 {
            assert(!all_digits(s@.subrange(lo as int, hi as int))) by {
                assert(s@.subrange(lo as int, hi as int)[i - lo] == b);
            }
            return None;
        }
        assert(all_digits(now)) by {
            assert forall|j: int| 0 <= j < now.len() implies 48 <= #[trigger] now[j] <= 57 by {
                if j < i - lo {
                    assert(now[j] == s@.subrange(lo as int, i as int)[j]);
                }
            }
        }
        proof {
            lemma_digits_grow(now);
        }
        if !over {
            acc = acc * 10 + (b - 48) as u128;
            if acc > u64::MAX as u128 {
                over = true;
            }
        }
        i += 1;
    }
    if over {
        None
    } else {
        Some(acc as u64)
    }
}

fn power_of_ten(n: u8) -> (p: u64)
    requires
        n <= 9,
    ensures
        p == pow10(n as nat),
        1 <= p <= 1_000_000_000,
{
    proof {
        reveal_with_fuel(pow10, 10);
    }
    if n == 0 {
        1
    } else if n == 1 {
        10
    } else if n == 2 {
        100
    } else if n == 3 {
        1_000
    } else if n == 4 {
        10_000
    } else if n == 5 {
        100_000
    } else if n == 6 {
        1_000_000
    } else if n == 7 {
        10_000_000
    } else if n == 8 {
        100_000_000
    } else {
        1_000_000_000
    }
}

/// Position of the first `.` in `s[lo..hi]`, or `hi`.
fn find_point(s: &[u8], lo: usize, hi: usize) -> (p: usize)
    requires
        lo <= hi <= s@.len(),
    ensures
        lo <= p <= hi,
        p - lo == point_of(s@.subrange(lo as int, hi as int)),
{
    let ghost t = s@.subrange(lo as int, hi as int);
    let mut p: usize = lo;
    while p < hi && s[p] != 46
        invariant
            lo <= p <= hi <= s@.len(),
            forall|i: int| lo <= i < p ==> #[trigger] s@[i] != 46,
        decreases hi - p,
    {
        p += 1;
    }
    proof {
        assert forall|i: int| 0 <= i < p - lo implies t[i] != 46 by {
            assert(t[i] == s@[lo + i]);
        }
        if p < hi {
            assert(t[p - lo] == s@[p as int]);
        }
        lemma_point_is(t, p - lo);
    }
    p
}

fn digits_only(s: &[u8], lo: usize, hi: usize) -> (ok: bool)
    requires
        lo <= hi <= s@.len(),
    ensures
        ok == all_digits(s@.subrange(lo as int, hi as int)),
{
    let ghost t = s@.subrange(lo as int, hi as int);
    let mut j: usize = lo;
    while j < hi
        invariant
            lo <= j <= hi <= s@.len(),
            t == s@.subrange(lo as int, hi as int),
            forall|i: int| 0 <= i < j - lo ==> 48 <= #[trigger] t[i] <= 57,
        decreases hi - j,
    {
        assert(t[j - lo] == s@[j as int]);
        if s[j] < 48 || s[j] > 57 {
            return false;
        }
        j += 1;
    }
    true
}

/// Reads the digits `s[lo..hi]` behind a point, in units of `10^-d`.
fn read_fraction(s: &[u8], lo: usize, hi: usize, d: u8) -> (out: Option<u64>)
    requires
        lo <= hi <= s@.len(),
        d <= 9,
    ensures
        out is Some <==> all_digits(s@.subrange(lo as int, hi as int)),
        out matches Some(v) ==> v == fraction_value(s@.subrange(lo as int, hi as int), d as nat)
            && v <= 1_000_000_000,
{
    let ghost frac = s@.subrange(lo as int, hi as int);
    if !digits_only(s, lo, hi) {
        return None;
    }
    let long: bool = hi - lo > d as usize;
    let kept_hi: usize = if long {
        lo + d as usize
    } else {
        hi
    };
    let ghost head = s@.subrange(lo as int, kept_hi as int);
    proof {
        assert(all_digits(head)) by {
            assert forall|i: int| 0 <= i < head.len() implies 48 <= #[trigger] head[i] <= 57 by {
                assert(head[i] == frac[i]);
            }
        }
        reveal_with_fuel(pow10, 10);
        lemma_digits_bounded(head);
        lemma_pow10_monotone(head.len(), 9);
        if long {
            assert(frac.subrange(0, d as int) =~= head);
            assert(frac[d as int] == s@[kept_hi as int]);
        } else {
            assert(frac =~= head);
        }
    }
    let kept: u64 = match read_digits(s, lo, kept_hi) {
        Some(v) => v,
        None => {
            return None;
        },
    };
    if long {
        if s[kept_hi] >= 53 {
            Some(kept + 1)
        } else {
            Some(kept)
        }
    } else {
        let pad: u64 = power_of_ten(d - (hi - lo) as u8);
        proof {
            lemma_pow10_split(head.len(), d as nat);
            assert(kept * pad < pow10(d as nat)) by (nonlinear_arith)
                requires
                    0 <= kept < pow10(head.len()),
                    pad >= 1,
                    pow10(head.len()) * pad == pow10(d as nat),
            ;
            lemma_pow10_monotone(d as nat, 9);
        }
        Some(kept * pad)
    }
}

/// Reads `s[lo..hi]` as an unsigned decimal number in units of `10^-d`; the
/// number must be below `2^64`.
pub fn parse_decimal(s: &[u8], lo: usize, hi: usize, d: u8) -> (out: Option<u64>)
    requires
        lo <= hi <= s@.len(),
        d <= 9,
    ensures
        out is Some <==> (decimal_of(s@.subrange(lo as int, hi as int), d as nat) matches Some(v)
            && v <= u64::MAX),
        out matches Some(v) ==> decimal_of(s@.subrange(lo as int, hi as int), d as nat) == Some(
            v as int,
        ),
{
    let ghost t = s@.subrange(lo as int, hi as int);
    let p = find_point(s, lo, hi);
    let frac_lo: usize = if p < hi {
        p + 1
    } else {
        hi
    };
    let ghost whole = s@.subrange(lo as int, p as int);
    let ghost frac = s@.subrange(frac_lo as int, hi as int);
    proof {
        assert(t.subrange(0, p - lo) =~= whole);
        if p < hi {
            assert(t.subrange(p - lo + 1, t.len() as int) =~= frac);
        } else {
            assert(frac =~= Seq::<u8>::empty());
        }
    }
    if p - lo + (hi - frac_lo) == 0 {
        return None;
    }
    let part: u64 = match read_fraction(s, frac_lo, hi, d) {
        Some(v) => v,
        None => {
            return None;
        },
    };
    if !digits_only(s, lo, p) {
        return None;
    }
    let scale: u64 = power_of_ten(d);
    proof {
        lemma_digits_grow(whole);
    }
    match read_digits(s, lo, p) {
        Some(v) => {
            assert(v * scale <= 0xFFFF_FFFF_FFFF_FFFF * 1_000_000_000) by (nonlinear_arith)
                requires
                    0 <= v <= 0xFFFF_FFFF_FFFF_FFFF,
                    0 <= scale <= 1_000_000_000,
            ;
            let total: u128 = (v as u128) * (scale as u128) + part as u128;
            if total > u64::MAX as u128 {
                None
            } else {
                Some(total as u64)
            }
        },
        None => {
            assert(digits_value(whole) * pow10(d as nat) >= digits_value(whole))
                by (nonlinear_arith)
                requires
                    digits_value(whole) >= 0,
                    pow10(d as nat) >= 1,
            ;
            None
        },
    }
}

proof fn lemma_pow10_split(a: nat, b: nat)
    requires
        a <= b,
    ensures
        pow10(a) * pow10((b - a) as nat) == pow10(b),
    decreases b,
{
    if a < b {
        lemma_pow10_split(a, (b - 1) as nat);
        assert(pow10(a) * (10 * pow10((b - 1 - a) as nat)) == 10 * (pow10(a) * pow10(
            (b - 1 - a) as nat,
        ))) by (nonlinear_arith);
    } else {
        assert(pow10(a) * 1 == pow10(a));
    }
}

proof fn lemma_pow10_monotone(a: nat, b: nat)
    requires
        a <= b,
    ensures
        1 <= pow10(a) <= pow10(b),
    decreases b,
{
    if b > 0 {
        if a < b {
            lemma_pow10_monotone(a, (b - 1) as nat);
        } else {
            lemma_pow10_monotone((a - 1) as nat, (b - 1) as nat);
        }
    }
}

proof fn lemma_digits_bounded(s: Seq<u8>)
    requires
        all_digits(s),
    ensures
        0 <= digits_value(s) < pow10(s.len()),
    decreases s.len(),
{
    if s.len() > 0 {
        assert(all_digits(s.drop_last()));
        lemma_digits_bounded(s.drop_last());
    }
}

/// Reads `s[lo..hi]` as a signed decimal number in units of `10^-d`; the
/// number must fit 64 bits.
pub fn parse_signed_decimal(s: &[u8], lo: usize, hi: usize, d: u8) -> (out: Option<i64>)
    requires
        lo <= hi <= s@.len(),
        d <= 9,
    ensures
        out is Some <==> (signed_decimal_of(s@.subrange(lo as int, hi as int), d as nat) matches Some(
            v,
        ) && i64::MIN <= v <= i64::MAX),
        out matches Some(v) ==> signed_decimal_of(s@.subrange(lo as int, hi as int), d as nat)
            == Some(v as int),
{
    let ghost t = s@.subrange(lo as int, hi as int);
    if lo < hi && (s[lo] == 45 || s[lo] == 43) {
        assert(t[0] == s@[lo as int]);
        assert(t.subrange(1, t.len() as int) =~= s@.subrange(lo + 1, hi as int));
        match parse_decimal(s, lo + 1, hi, d) {
            Some(v) => {
                if s[lo] == 43 {
                    if v > i64::MAX as u64 {
                        None
                    } else {
                        Some(v as i64)
                    }
                } else if v > 0x8000_0000_0000_0000 {
                    None
                } else if v == 0x8000_0000_0000_0000 {
                    Some(i64::MIN)
                } else {
                    Some(-(v as i64))
                }
            },
            None => None,
        }
    } else {
        if lo < hi {
            assert(t[0] == s@[lo as int]);
        }
        match parse_decimal(s, lo, hi, d) {
            Some(v) => {
                if v > i64::MAX as u64 {
                    None
                } else {
                    Some(v as i64)
                }
            },
            None => None,
        }
    }
}

/// The number that a run of digits stands for; `None` for an empty run or
/// anything that is not a digit.
pub open spec fn natural_of(s: Seq<u8>) -> Option<int> {
    if s.len() > 0 && all_digits(s) {
        Some(digits_value(s))
    } else {
        None
    }
}

/// Reads `s[lo..hi]` as a run of digits; the number must be below `2^64`.
pub fn parse_natural(s: &[u8], lo: usize, hi: usize) -> (out: Option<u64>)
    requires
        lo <= hi <= s@.len(),
    ensures
        out is Some <==> (natural_of(s@.subrange(lo as int, hi as int)) matches Some(v) && v
            <= u64::MAX),
        out matches Some(v) ==> natural_of(s@.subrange(lo as int, hi as int)) == Some(v as int),
{
    if lo == hi {
        None
    } else {
        read_digits(s, lo, hi)
    }
}

/// The text that bytes stand for, with a replacement character for every
/// part that is not UTF-8.
pub uninterp spec fn lossy_text(bytes: Seq<u8>) -> Seq<char>;

/// Calls `String::from_utf8_lossy`. Trusted: the result is the text named
/// `lossy_text`, which for well-formed UTF-8 is the text that the bytes
/// encode.
#[verifier::external_body]
fn utf8_lossy(bytes: &[u8]) -> (text: String)
    ensures
        text@ == lossy_text(bytes@),
        valid_utf8(bytes@) ==> text@ == decode_utf8(bytes@),
{
    String::from_utf8_lossy(bytes).into_owned()
}

/// The text of `s[at.0..at.1]`.
pub fn text_of(s: &[u8], at: (usize, usize)) -> (text: String)
    requires
        at.0 <= at.1 <= s@.len(),
    ensures
        text@ == lossy_text(span(s@, at)),
        valid_utf8(span(s@, at)) ==> text@ == decode_utf8(span(s@, at)),
{
    utf8_lossy(slice_subrange(s, at.0, at.1))
}

} // verus!
