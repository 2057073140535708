use vstd::prelude::*;

use crate::text::{contains, contains_in, find_char, line_end, to_chars};

verus! {

broadcast use vstd::string::group_string_axioms;

/// The line that opens the injectable region contains this.
pub open spec fn start_marker() -> Seq<char> {
    seq!['#', ' ', 's', 't', 'a', 'r', 't']
}

/// The line that closes the injectable region contains this.
pub open spec fn end_marker() -> Seq<char> {
    seq!['#', ' ', 'e', 'n', 'd']
}

/// The bounds `(first, past_last)` of the first line, from the one at `start`
/// on, that contains `pat`; lines are separated by `\n`.
pub open spec fn find_line(s: Seq<char>, pat: Seq<char>, start: int) -> Option<(int, int)>
    decreases s.len() - start,
{
    if start < 0 || start > s.len() {
        None
    } else {
        let e = find_char(s, '\n', start);
        if contains(s.subrange(start, e), pat) {
            Some((start, e))
        } else if e < s.len() && e >= start {
            find_line(s, pat, e + 1)
        } else {
            None
        }
    }
}

/// The template `s` with the lines strictly between its first `# start` line
/// and its first `# end` line replaced by the one block `payload`; `None`
/// when a marker line is missing or the `# end` line does not come after the
/// `# start` line.
pub open spec fn render(s: Seq<char>, payload: Seq<char>) -> Option<Seq<char>> {
    match (find_line(s, start_marker(), 0), find_line(s, end_marker(), 0)) {
        (Some(a), Some(b)) => if b.0 > a.1 {
            Some(s.subrange(0, a.1) + seq!['\n'] + payload + seq!['\n'] + s.subrange(b.0, s.len() as int))
        } else {
            None
        },
        _ => None,
    }
}

/// The bounds of the first line of `s` that contains `pat`.
fn find_line_in(s: &Vec<char>, pat: &Vec<char>) -> (r: Option<(usize, usize)>)
    ensures
        match r {
            Some((a, b)) => find_line(s@, pat@, 0) == Some((a as int, b as int)) && a <= b
                <= s@.len(),
            None => find_line(s@, pat@, 0) is None,
        },
{
    let n = s.len();
    let mut start: usize = 0;
    loop
        invariant
            start <= n == s@.len(),
            find_line(s@, pat@, 0) == find_line(s@, pat@, start as int),
        decreases n - start,
    {
        let e = line_end(s, start);
        if contains_in(s, start, e, pat) {
            return Some((start, e));
        }
        if e == n {
            return None;
        }
        start = e + 1;
    }
}

/// Whether a template can be rendered does not depend on what is spliced in.
pub proof fn lemma_render_any_payload(s: Seq<char>, p: Seq<char>, q: Seq<char>)
    ensures
        render(s, p) is Some == render(s, q) is Some,
{
}

/// The first `# start` line and the first `# end` line of a template, as
/// `(end of the start line, beginning of the end line)`, when both exist.
fn marker_bounds(s: &Vec<char>) -> (r: Option<(usize, usize)>)
    ensures
        match r {
            Some((a, b)) => {
                &&& find_line(s@, start_marker(), 0) matches Some(x) && x.1 == a as int
                &&& find_line(s@, end_marker(), 0) matches Some(y) && y.0 == b as int
                &&& a <= s@.len() && b <= s@.len()
            },
            None => find_line(s@, start_marker(), 0) is None || find_line(s@, end_marker(), 0) is None,
        },
{
    proof {
        reveal_strlit("# start");
        reveal_strlit("# end");
    }
    let open = to_chars("# start");
    let close = to_chars("# end");
    assert(open@ =~= start_marker());
    assert(close@ =~= end_marker());
    match (find_line_in(s, &open), find_line_in(s, &close)) {
        (Some((_, a)), Some((b, _))) => Some((a, b)),
        _ => None,
    }
}

/// Whether the template has a `# start` line and, after it, a `# end` line,
/// so that a block can be spliced in between.
pub fn template_ok(script_contents: &str) -> (r: bool)
    ensures
        r == (render(script_contents@, Seq::empty()) is Some),
{
    let s = to_chars(script_contents);
    match marker_bounds(&s) {
        Some((a, b)) => b > a,
        None => false,
    }
}

/// Splices the assignment block `new_constants` into the template between
/// its marker lines; see `render`. A template without such lines is refused
/// before any work starts (`template_ok`).
pub fn replace_constants(script_contents: &str, new_constants: &str) -> (r: String)
    requires
        render(script_contents@, new_constants@) is Some,
    ensures
        r@ == render(script_contents@, new_constants@)->0,
{
    proof {
        reveal_strlit("\n");
    }
    let s = to_chars(script_contents);
    let (a, b) = match marker_bounds(&s) {
        Some(ab) => ab,
        None => {
            return String::new();
        },
    };
    let mut out = String::new();
    out.append(script_contents.substring_char(0, a));
    out.append("\n");
    out.append(new_constants);
    out.append("\n");
    out.append(script_contents.substring_char(b, s.len()));
    assert("\n"@ =~= seq!['\n']);
    out
}

} // verus!
