use vstd::prelude::*;
use vstd::std_specs::iter::IteratorSpec;

verus! {

broadcast use vstd::string::group_string_axioms;

/// The character of a decimal digit `d < 10`.
pub open spec fn digit_char(d: nat) -> char {
    if d == 0 { '0' }
    else if d == 1 { '1' }
    else if d == 2 { '2' }
    else if d == 3 { '3' }
    else if d == 4 { '4' }
    else if d == 5 { '5' }
    else if d == 6 { '6' }
    else if d == 7 { '7' }
    else if d == 8 { '8' }
    else { '9' }
}

/// The decimal notation of `n`, without leading zeros.
pub open spec fn decimal(n: nat) -> Seq<char>
    decreases n,
{
    if n < 10 {
        seq![digit_char(n)]
    } else {
        decimal(n / 10) + seq![digit_char(n % 10)]
    }
}

/// The characters of `s`, one by one.
pub fn to_chars(s: &str) -> (r: Vec<char>)
    ensures
        r@ == s@,
{
    let mut r: Vec<char> = Vec::new();
    let mut it = s.chars();
    loop
        invariant
            r@ + it.remaining() == s@,
            it.decrease() is Some,
        decreases it.decrease()->0,
    {
        match it.next() {
            Some(c) => {
                r.push(c);
            },
            None => {
                return r;
            },
        }
    }
}

fn digit_str(d: u128) -> (s: &'static str)
    requires
        d < 10,
    ensures
        s@ == seq![digit_char(d as nat)],
{
    proof {
        reveal_strlit("0");
        reveal_strlit("1");
        reveal_strlit("2");
        reveal_strlit("3");
        reveal_strlit("4");
        reveal_strlit("5");
        reveal_strlit("6");
        reveal_strlit("7");
        reveal_strlit("8");
        reveal_strlit("9");
    }
    if d == 0 { "0" }
    else if d == 1 { "1" }
    else if d == 2 { "2" }
    else if d == 3 { "3" }
    else if d == 4 { "4" }
    else if d == 5 { "5" }
    else if d == 6 { "6" }
    else if d == 7 { "7" }
    else if d == 8 { "8" }
    else { "9" }
}

/// Appends the decimal notation of `n` to `out`.
pub fn push_decimal(out: &mut String, n: u128)
    ensures
        final(out)@ == old(out)@ + decimal(n as nat),
    decreases n,
{
    if n >= 10 {
        push_decimal(out, n / 10);
    }
    out.append(digit_str(n % 10));
    assert(final(out)@ =~= old(out)@ + decimal(n as nat));
}

/// A fixed-point number of thousandths `v` in decimal notation with exactly
/// three decimals, e.g. `-1.250` for `-1250`.
pub open spec fn fixed3(v: int) -> Seq<char> {
    let a = if v < 0 { -v } else { v };
    (if v < 0 { seq!['-'] } else { Seq::empty() }) + decimal((a / 1000) as nat) + seq![
        '.',
        digit_char(((a % 1000) / 100) as nat),
        digit_char(((a % 100) / 10) as nat),
        digit_char((a % 10) as nat),
    ]
}

/// Appends the three-decimal notation of the thousandths `v` to `out`.
pub fn push_fixed3(out: &mut String, v: i64)
    ensures
        final(out)@ == old(out)@ + fixed3(v as int),
{
    proof {
        reveal_strlit("-");
        reveal_strlit(".");
    }
    let a: u64 = if v < 0 {
        (0 - (v as i128)) as u64
    } else {
        v as u64
    };
    if v < 0 {
        out.append("-");
    }
    push_decimal(out, (a / 1000) as u128);
    out.append(".");
    out.append(digit_str(((a % 1000) / 100) as u128));
    out.append(digit_str(((a % 100) / 10) as u128));
    out.append(digit_str((a % 10) as u128));
    assert(final(out)@ =~= old(out)@ + fixed3(v as int));
}

/// The first position at or after `from` that holds `c`, or the length of `s`.
pub open spec fn find_char(s: Seq<char>, c: char, from: int) -> int
    decreases s.len() - from,
{
    if from >= s.len() || from < 0 {
        s.len() as int
    } else if s[from] == c {
        from
    } else {
        find_char(s, c, from + 1)
    }
}

/// `find_char` gives the first position of `c` at or after `from`.
pub proof fn lemma_find_char(s: Seq<char>, c: char, from: int)
    requires
        0 <= from <= s.len(),
    ensures
        from <= find_char(s, c, from) <= s.len(),
        find_char(s, c, from) < s.len() ==> s[find_char(s, c, from)] == c,
        forall|j: int| from <= j < find_char(s, c, from) ==> s[j] != c,
    decreases s.len() - from,
{
    if from < s.len() && s[from] != c {
        lemma_find_char(s, c, from + 1);
    }
}

/// A position that ends a run without `c` and holds `c` (or is the end) is
/// what `find_char` gives.
pub proof fn lemma_find_char_at(s: Seq<char>, c: char, from: int, e: int)
    requires
        0 <= from <= e <= s.len(),
        forall|j: int| from <= j < e ==> s[j] != c,
        e == s.len() || s[e] == c,
    ensures
        find_char(s, c, from) == e,
    decreases e - from,
{
    if from < e {
        lemma_find_char_at(s, c, from + 1, e);
    }
}

/// The end of the line that starts at `start`: the position of the next `\n`,
/// or the length of `s`.
pub fn line_end(s: &Vec<char>, start: usize) -> (e: usize)
    requires
        start <= s@.len(),
    ensures
        e == find_char(s@, '\n', start as int),
        start <= e <= s@.len(),
{
    let n = s.len();
    let mut e: usize = start;
    while e < n && s[e] != '\n'
        invariant
            start <= e <= n == s@.len(),
            forall|j: int| start <= j < e ==> s@[j] != '\n',
        decreases n - e,
    {
        e += 1;
    }
    proof {
        lemma_find_char_at(s@, '\n', start as int, e as int);
    }
    e
}

/// Whether `pat` occurs in `s` at position `p`.
pub fn matches_at(s: &Vec<char>, p: usize, pat: &Vec<char>) -> (r: bool)
    requires
        p <= s@.len(),
    ensures
        r == (p + pat@.len() <= s@.len() && s@.subrange(p as int, p + pat@.len()) == pat@),
{
    let m = pat.len();
    if s.len() - p < m {
        return false;
    }
    let mut j: usize = 0;
    while j < m
        invariant
            p + m <= s.len(),
            s.len() == s@.len(),
            m == pat@.len(),
            j <= m,
            forall|q: int| 0 <= q < j ==> s@[p + q] == pat@[q],
        decreases m - j,
    {
        if s[p + j] != pat[j] {
            assert(s@.subrange(p as int, p + m)[j as int] == s@[p + j]);
            return false;
        }
        j += 1;
    }
    assert(s@.subrange(p as int, p + m) =~= pat@);
    true
}

/// Whether `pat` occurs in `line`.
pub open spec fn contains(line: Seq<char>, pat: Seq<char>) -> bool {
    exists|i: int|
        0 <= i && i + pat.len() <= line.len() && #[trigger] line.subrange(i, i + pat.len()) == pat
}

/// Whether `pat` occurs in `s[lo..hi]`.
pub fn contains_in(s: &Vec<char>, lo: usize, hi: usize, pat: &Vec<char>) -> (r: bool)
    requires
        lo <= hi <= s@.len(),
    ensures
        r == contains(s@.subrange(lo as int, hi as int), pat@),
{
    let ghost line = s@.subrange(lo as int, hi as int);
    let m = pat.len();
    if hi - lo < m {
        return false;
    }
    if m == 0 {
        assert(line.subrange(0int, 0int + pat@.len()) =~= pat@);
        return true;
    }
    let mut i: usize = 0;
    while i <= hi - lo - m
        invariant
            lo <= hi <= s@.len(),
            m == pat@.len(),
            m >= 1,
            m <= hi - lo,
            line == s@.subrange(lo as int, hi as int),
            i <= hi - lo - m + 1,
            forall|p: int| 0 <= p < i ==> #[trigger] line.subrange(p, p + m) != pat@,
        decreases hi - lo - m + 1 - i,
    {
        let mut j: usize = 0;
        let mut same = true;
        while j < m
            invariant
                lo <= hi <= s@.len(),
                i + m <= hi - lo,
                m == pat@.len(),
                line == s@.subrange(lo as int, hi as int),
                j <= m,
                same ==> forall|q: int| 0 <= q < j ==> line[i + q] == pat@[q],
                !same ==> line.subrange(i as int, i + m) != pat@,
            decreases m - j,
        {
            if s[lo + i + j] != pat[j] {
                assert(line.subrange(i as int, i + m)[j as int] == s@[lo + i + j]);
                same = false;
            }
            j += 1;
        }
        if same {
            assert(line.subrange(i as int, i + m) =~= pat@);
            return true;
        }
        i += 1;
    }
    proof {
        if contains(line, pat@) {
            let w = choose|w: int|
                0 <= w && w + pat@.len() <= line.len() && #[trigger] line.subrange(w, w + pat@.len())
                    == pat@;
            assert(line.subrange(w, w + m) == pat@);
        }
    }
    false
}

} // verus!
