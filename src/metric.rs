use vstd::prelude::*;

use crate::text::{find_char, lemma_find_char, matches_at, to_chars};

verus! {

broadcast use vstd::string::group_string_axioms;

/// The label that comes before the metric.
pub open spec fn label() -> Seq<char> {
    seq!['T', 'o', 't', 'a', 'l', ' ', 'p', 'r', 'o', 'f', 'i', 't', ':']
}

/// Unicode white space.
pub open spec fn is_space(c: char) -> bool {
    c == ' ' || ('\t' <= c <= '\r') || c == '\u{85}' || c == '\u{A0}' || c == '\u{1680}' || (
    '\u{2000}' <= c <= '\u{200A}') || c == '\u{2028}' || c == '\u{2029}' || c == '\u{202F}'
        || c == '\u{205F}' || c == '\u{3000}'
}

/// A decimal digit.
pub open spec fn is_digit(c: char) -> bool {
    '0' <= c <= '9'
}

pub open spec fn digit_value(c: char) -> int {
    c as u32 as int - '0' as u32 as int
}

/// The value of a string of decimal digits (0 for none).
pub open spec fn digits_value(s: Seq<char>) -> int
    decreases s.len(),
{
    if s.len() == 0 {
        0
    } else {
        digits_value(s.drop_last()) * 10 + digit_value(s.last())
    }
}

pub open spec fn all_digits(s: Seq<char>) -> bool {
    forall|i: int| 0 <= i < s.len() ==> is_digit(#[trigger] s[i])
}

/// The factor that brings `n` decimals up to thousandths.
pub open spec fn frac_scale(n: nat) -> int {
    if n == 0 {
        1000
    } else if n == 1 {
        100
    } else if n == 2 {
        10
    } else {
        1
    }
}

pub open spec fn has_sign(t: Seq<char>) -> bool {
    t.len() > 0 && (t[0] == '-' || t[0] == '+')
}

/// A numeral without its sign.
pub open spec fn unsigned_part(t: Seq<char>) -> Seq<char> {
    if has_sign(t) { t.drop_first() } else { t }
}

/// How many of `m` decimals are kept.
pub open spec fn kept_len(m: int) -> int {
    if m > 3 { 3 } else { m }
}

pub open spec fn pow10_below(m: int) -> int {
    if m <= 0 { 1 } else if m == 1 { 10 } else if m == 2 { 100 } else { 1000 }
}

/// A decimal numeral as thousandths: an optional sign, digits, and an
/// optional point followed by digits, with at least one digit in all.
/// Decimals past the third are dropped (the value is truncated towards
/// zero). `None` when the text is no such numeral or its value does not fit
/// in an `i64`.
pub open spec fn parse_milli(t: Seq<char>) -> Option<int> {
    let neg = t.len() > 0 && t[0] == '-';
    let body = unsigned_part(t);
    let d = find_char(body, '.', 0);
    let whole = body.subrange(0, d);
    let frac = if d < body.len() { body.subrange(d + 1, body.len() as int) } else { Seq::empty() };
    let kept = if frac.len() > 3 { frac.subrange(0, 3) } else { frac };
    let mag = digits_value(whole) * 1000 + digits_value(kept) * frac_scale(kept.len());
    let v = if neg { -mag } else { mag };
    if all_digits(whole) && all_digits(frac) && whole.len() + frac.len() >= 1
        && i64::MIN <= v <= i64::MAX {
        Some(v)
    } else {
        None
    }
}

/// `s` without its commas.
pub open spec fn drop_commas(s: Seq<char>) -> Seq<char>
    decreases s.len(),
{
    if s.len() == 0 {
        s
    } else if s.last() == ',' {
        drop_commas(s.drop_last())
    } else {
        drop_commas(s.drop_last()).push(s.last())
    }
}

/// The first position at or after `i` that is not white space.
pub open spec fn skip_space(s: Seq<char>, i: int) -> int
    decreases s.len() - i,
{
    if 0 <= i < s.len() && is_space(s[i]) {
        skip_space(s, i + 1)
    } else {
        i
    }
}

/// A character that can stand in a numeral after its sign.
pub open spec fn is_numeral_char(c: char) -> bool {
    is_digit(c) || c == ',' || c == '.'
}

/// The end of the run of digits, commas and points that starts at `i`.
pub open spec fn numeral_end(s: Seq<char>, i: int) -> int
    decreases s.len() - i,
{
    if 0 <= i < s.len() && is_numeral_char(s[i]) {
        numeral_end(s, i + 1)
    } else {
        i
    }
}

/// Whether the label starts at `p`.
pub open spec fn label_at(s: Seq<char>, p: int) -> bool {
    0 <= p && p + label().len() <= s.len() && s.subrange(p, p + label().len()) == label()
}

/// The text that follows the label at `p`, after white space: an optional
/// sign, then digits, commas and points.
pub open spec fn numeral_after(s: Seq<char>, p: int) -> Seq<char> {
    let a = skip_space(s, p + label().len());
    let b = if a < s.len() && (s[a] == '-' || s[a] == '+') { a + 1 } else { a };
    s.subrange(a, numeral_end(s, b))
}

/// The metric given by the label at `p`, if it is one whose numeral, commas
/// left out, is a number.
pub open spec fn metric_at(s: Seq<char>, p: int) -> Option<int> {
    if label_at(s, p) {
        parse_milli(drop_commas(numeral_after(s, p)))
    } else {
        None
    }
}

/// The metric of the first label, from position `p` on, that gives one.
pub open spec fn metric_from(s: Seq<char>, p: int) -> Option<int>
    decreases s.len() - p,
{
    if p < 0 || p >= s.len() {
        None
    } else {
        match metric_at(s, p) {
            Some(v) => Some(v),
            None => metric_from(s, p + 1),
        }
    }
}

/// The metric of a program's output: that of the first label, in document
/// order, whose numeral is a number.
pub open spec fn output_metric(s: Seq<char>) -> Option<int> {
    metric_from(s, 0)
}

pub open spec fn opt_int(r: Option<i64>) -> Option<int> {
    match r {
        Some(v) => Some(v as int),
        None => None,
    }
}

pub fn is_space_char(c: char) -> (r: bool)
    ensures
        r == is_space(c),
{
    c == ' ' || ('\t' <= c && c <= '\r') || c == '\u{85}' || c == '\u{A0}' || c == '\u{1680}'
        || ('\u{2000}' <= c && c <= '\u{200A}') || c == '\u{2028}' || c == '\u{2029}' || c
        == '\u{202F}' || c == '\u{205F}' || c == '\u{3000}'
}

proof fn lemma_digits_nonneg(s: Seq<char>)
    requires
        all_digits(s),
    ensures
        digits_value(s) >= 0,
    decreases s.len(),
{
    if s.len() > 0 {
        lemma_digits_nonneg(s.drop_last());
    }
}

proof fn lemma_digits_step(s: Seq<char>, i: int)
    requires
        0 <= i < s.len(),
    ensures
        digits_value(s.subrange(0, i + 1)) == digits_value(s.subrange(0, i)) * 10 + digit_value(
            s[i],
        ),
{
    assert(s.subrange(0, i + 1).drop_last() =~= s.subrange(0, i));
}

/// A longer run of digits is worth at least as much as its prefix.
proof fn lemma_digits_prefix(s: Seq<char>, k: int, j: int)
    requires
        0 <= k <= j <= s.len(),
        all_digits(s.subrange(0, j)),
    ensures
        digits_value(s.subrange(0, k)) <= digits_value(s.subrange(0, j)),
    decreases j - k,
{
    if k < j {
        assert(all_digits(s.subrange(0, j - 1))) by {
            assert forall|t: int| 0 <= t < j - 1 implies is_digit(#[trigger] s.subrange(0, j - 1)[t]) by {
                assert(s.subrange(0, j)[t] == s[t]);
            }
        }
        lemma_digits_prefix(s, k, j - 1);
        lemma_digits_step(s, j - 1);
        lemma_digits_nonneg(s.subrange(0, j - 1));
        assert(s.subrange(0, j)[j - 1] == s[j - 1]);
    }
}

/// Reads a decimal numeral as thousandths; see `parse_milli`.
pub fn parse_fixed3(t: &Vec<char>) -> (r: Option<i64>)
    ensures
        opt_int(r) == parse_milli(t@),
{
    let n = t.len();
    let mut i: usize = 0;
    let mut neg = false;
    if n > 0 && (t[0] == '-' || t[0] == '+') {
        neg = t[0] == '-';
        i = 1;
    }
    let start = i;
    let ghost body = t@.subrange(start as int, n as int);
    assert(body =~= unsigned_part(t@));
    let ghost d = find_char(body, '.', 0);
    proof {
        lemma_find_char(body, '.', 0);
    }
    let mut whole: u128 = 0;
    while i < n && t[i] != '.'
        invariant
            start <= i <= n == t@.len(),
            body == t@.subrange(start as int, n as int),
            body == unsigned_part(t@),
            neg == (t@.len() > 0 && t@[0] == '-'),
            d == find_char(body, '.', 0),
            0 <= d <= body.len(),
            d < body.len() ==> body[d] == '.',
            forall|j: int| 0 <= j < d ==> body[j] != '.',
            forall|j: int| start <= j < i ==> t@[j] != '.' && is_digit(t@[j]),
            whole == digits_value(body.subrange(0, i - start)),
            whole <= 9223372036854775,
        decreases n - i,
    {
        let c = t[i];
        assert(body[i - start] == c);
        if !('0' <= c && c <= '9') {
            assert(d > i - start);
            assert(body.subrange(0, d)[i - start] == c);
            return None;
        }
        proof {
            lemma_digits_step(body, i - start);
        }
        let nw: u128 = whole * 10 + (c as u32 - '0' as u32) as u128;
        if nw > 9223372036854775 {
            proof {
                assert(d > i - start);
                if all_digits(body.subrange(0, d)) {
                    assert(body.subrange(0, d).subrange(0, i - start + 1) =~= body.subrange(0, i - start + 1));
                    lemma_digits_prefix(body.subrange(0, d), i - start + 1, d);
                    assert(body.subrange(0, d).subrange(0, d) =~= body.subrange(0, d));
                    let frac = if d < body.len() { body.subrange(d + 1, body.len() as int) } else { Seq::empty() };
                    if all_digits(frac) {
                        let kept = if frac.len() > 3 { frac.subrange(0, 3) } else { frac };
                        assert(all_digits(kept));
                        lemma_digits_nonneg(kept);
                        assert(digits_value(kept) * frac_scale(kept.len()) >= 0) by (nonlinear_arith)
                            requires digits_value(kept) >= 0, frac_scale(kept.len()) >= 1;
                    }
                }
            }
            return None;
        }
        whole = nw;
        i += 1;
    }
    assert(d == i - start) by {
        if d < i - start {
            assert(t@[start + d] == body[d]);
        }
        if i < n {
            assert(body[i - start] == t@[i as int]);
        }
    }
    let ghost wspec = body.subrange(0, d);
    assert(all_digits(wspec)) by {
        assert forall|j: int| 0 <= j < wspec.len() implies is_digit(#[trigger] wspec[j]) by {
            assert(wspec[j] == t@[start + j]);
        }
    }
    let mut frac: u128 = 0;
    let mut nfrac: usize = 0;
    let mut flen: usize = 0;
    if i < n {
        let ghost fspec = body.subrange(d + 1, body.len() as int);
        let mut k: usize = i + 1;
        while k < n
            invariant
                i + 1 <= k <= n == t@.len(),
                start <= i < n,
                d == i - start,
                d == find_char(body, '.', 0),
                body == unsigned_part(t@),
                neg == (t@.len() > 0 && t@[0] == '-'),
                body.len() == n - start,
                fspec == body.subrange(d + 1, body.len() as int),
                body == t@.subrange(start as int, n as int),
                forall|j: int| i + 1 <= j < k ==> is_digit(t@[j]),
                frac == digits_value(fspec.subrange(0, kept_len(k - i - 1))),
                frac < pow10_below(kept_len(k - i - 1)),
            decreases n - k,
        {
            let c = t[k];
            assert(fspec[k - i - 1] == body[k - start] && body[k - start] == t@[k as int]);
            if !('0' <= c && c <= '9') {
                assert(!is_digit(fspec[k - i - 1]));
                return None;
            }
            if k - i - 1 < 3 {
                proof {
                    lemma_digits_step(fspec, k - i - 1);
                    assert(fspec.subrange(0, k - i - 1 + 1) =~= fspec.subrange(0, k - i));
                }
                frac = frac * 10 + (c as u32 - '0' as u32) as u128;
            }
            k += 1;
        }
        assert(all_digits(fspec)) by {
            assert forall|j: int| 0 <= j < fspec.len() implies is_digit(#[trigger] fspec[j]) by {
                assert(fspec[j] == t@[i + 1 + j]);
            }
        }
        flen = n - i - 1;
        nfrac = if flen > 3 {
            3
        } else {
            flen
        };
        let ghost kept = if fspec.len() > 3 { fspec.subrange(0, 3) } else { fspec };
        assert(fspec.subrange(0, nfrac as int) =~= kept);
    }
    if (i - start) + flen == 0 {
        return None;
    }
    let scale: u128 = if nfrac == 0 {
        1000
    } else if nfrac == 1 {
        100
    } else if nfrac == 2 {
        10
    } else {
        1
    };
    let mag: u128 = whole * 1000 + frac * scale;
    if neg {
        if mag > 9223372036854775808 {
            return None;
        }
        Some((0 - (mag as i128)) as i64)
    } else {
        if mag > 9223372036854775807 {
            return None;
        }
        Some(mag as i64)
    }
}

/// The first position at or after `i` that is not white space.
fn skip_space_from(s: &Vec<char>, i: usize) -> (r: usize)
    requires
        i <= s@.len(),
    ensures
        r == skip_space(s@, i as int),
        i <= r <= s@.len(),
{
    let mut j: usize = i;
    while j < s.len() && is_space_char(s[j])
        invariant
            i <= j <= s@.len(),
            skip_space(s@, i as int) == skip_space(s@, j as int),
        decreases s@.len() - j,
    {
        j += 1;
    }
    j
}

/// The end of the run of digits, commas and points that starts at `i`.
fn numeral_end_from(s: &Vec<char>, i: usize) -> (r: usize)
    requires
        i <= s@.len(),
    ensures
        r == numeral_end(s@, i as int),
        i <= r <= s@.len(),
{
    let mut j: usize = i;
    while j < s.len() && (('0' <= s[j] && s[j] <= '9') || s[j] == ',' || s[j] == '.')
        invariant
            i <= j <= s@.len(),
            numeral_end(s@, i as int) == numeral_end(s@, j as int),
        decreases s@.len() - j,
    {
        j += 1;
    }
    j
}

/// The characters of `s[lo..hi]` but its commas.
fn without_commas(s: &Vec<char>, lo: usize, hi: usize) -> (r: Vec<char>)
    requires
        lo <= hi <= s@.len(),
    ensures
        r@ == drop_commas(s@.subrange(lo as int, hi as int)),
{
    let mut r: Vec<char> = Vec::new();
    let mut k: usize = lo;
    assert(s@.subrange(lo as int, lo as int) =~= Seq::<char>::empty());
    while k < hi
        invariant
            lo <= k <= hi <= s@.len(),
            r@ == drop_commas(s@.subrange(lo as int, k as int)),
        decreases hi - k,
    {
        assert(s@.subrange(lo as int, k + 1).drop_last() =~= s@.subrange(lo as int, k as int));
        if s[k] != ',' {
            r.push(s[k]);
        }
        k += 1;
    }
    r
}

/// The metric that a program's output reports: the number after the first
/// `Total profit:` label, in document order, that is followed (after white
/// space) by a numeral; grouping commas are left out. `None` when there is no
/// such label, which is not the same as a metric of zero.
pub fn get_profit(output: &str) -> (r: Option<i64>)
    ensures
        opt_int(r) == output_metric(output@),
{
    proof {
        reveal_strlit("Total profit:");
    }
    let s = to_chars(output);
    let lab = to_chars("Total profit:");
    assert(lab@ =~= label());
    let n = s.len();
    let mut p: usize = 0;
    while p < n
        invariant
            p <= n == s@.len(),
            s@ == output@,
            lab@ == label(),
            metric_from(s@, 0) == metric_from(s@, p as int),
        decreases n - p,
    {
        if matches_at(&s, p, &lab) {
            let a = skip_space_from(&s, p + lab.len());
            let b = if a < n && (s[a] == '-' || s[a] == '+') {
                a + 1
            } else {
                a
            };
            let e = numeral_end_from(&s, b);
            let token = without_commas(&s, a, e);
            let m = parse_fixed3(&token);
            if m.is_some() {
                return m;
            }
        }
        p += 1;
    }
    None
}

} // verus!
