use vstd::prelude::*;

use crate::config::VariableConfig;
use crate::float_range::{ints, range_values, FloatRange};
use crate::text::{fixed3, push_fixed3};

verus! {

broadcast use vstd::string::group_string_axioms;

/// Each combination of `rest`, with `v` put in front, for each `v` of `vals` in
/// turn.
pub open spec fn prefix_all(vals: Seq<int>, rest: Seq<Seq<int>>) -> Seq<Seq<int>>
    decreases vals.len(),
{
    if vals.len() == 0 {
        Seq::empty()
    } else {
        prefix_all(vals.drop_last(), rest) + rest.map_values(
            |c: Seq<int>| seq![vals.last()] + c,
        )
    }
}

/// The Cartesian product of the value lists, the first list varying slowest.
pub open spec fn grid(lists: Seq<Seq<int>>) -> Seq<Seq<int>>
    decreases lists.len(),
{
    if lists.len() == 0 {
        seq![Seq::empty()]
    } else {
        prefix_all(lists[0], grid(lists.drop_first()))
    }
}

/// The product of the lengths of the lists.
pub open spec fn size_product(lists: Seq<Seq<int>>) -> nat
    decreases lists.len(),
{
    if lists.len() == 0 {
        1
    } else {
        lists[0].len() * size_product(lists.drop_first())
    }
}

/// The value lists of a vector of combinations.
pub open spec fn combos(v: Seq<Vec<i64>>) -> Seq<Seq<int>> {
    v.map_values(|c: Vec<i64>| ints(c@))
}

/// The values that each range yields.
pub open spec fn range_lists(ranges: Seq<FloatRange>) -> Seq<Seq<int>> {
    ranges.map_values(|r: FloatRange| r.remaining())
}

/// The combination at `i * rest.len() + j` puts the `i`-th value in front of
/// the `j`-th combination of `rest`.
pub proof fn lemma_prefix_all(vals: Seq<int>, rest: Seq<Seq<int>>)
    ensures
        prefix_all(vals, rest).len() == vals.len() * rest.len(),
        forall|i: int, j: int|
            0 <= i < vals.len() && 0 <= j < rest.len() ==> #[trigger] prefix_all(vals, rest)[i
                * rest.len() + j] == seq![#[trigger] vals[i]] + rest[j],
    decreases vals.len(),
{
    if vals.len() > 0 {
        let init = vals.drop_last();
        lemma_prefix_all(init, rest);
        let p = prefix_all(init, rest);
        let all = prefix_all(vals, rest);
        assert(vals.len() * rest.len() == init.len() * rest.len() + rest.len())
            by (nonlinear_arith)
            requires vals.len() == init.len() + 1;
        assert forall|i: int, j: int|
            0 <= i < vals.len() && 0 <= j < rest.len() implies #[trigger] all[i * rest.len()
                + j] == seq![#[trigger] vals[i]] + rest[j] by {
            if i < init.len() {
                assert(i * rest.len() + j < init.len() * rest.len()) by (nonlinear_arith)
                    requires i < init.len(), j < rest.len();
                assert(init[i] == vals[i]);
            } else {
                assert(i * rest.len() == init.len() * rest.len()) by (nonlinear_arith)
                    requires i == init.len();
            }
        }
    } else {
        assert(vals.len() * rest.len() == 0) by (nonlinear_arith)
            requires vals.len() == 0;
    }
}

/// The grid holds as many combinations as the product of the lists' lengths.
pub proof fn lemma_grid_size(lists: Seq<Seq<int>>)
    ensures
        grid(lists).len() == size_product(lists),
    decreases lists.len(),
{
    if lists.len() > 0 {
        lemma_grid_size(lists.drop_first());
        lemma_prefix_all(lists[0], grid(lists.drop_first()));
    }
}

/// The position in the grid of the combination that takes value `idx[j]` of
/// each list `j`: the first index counts in blocks of the product of the later
/// lists' lengths, and so on (the last list varies fastest).
pub open spec fn flat_index(lists: Seq<Seq<int>>, idx: Seq<int>) -> int
    decreases lists.len(),
{
    if lists.len() == 0 {
        0
    } else {
        idx[0] * size_product(lists.drop_first()) + flat_index(lists.drop_first(), idx.drop_first())
    }
}

/// One index into each list.
pub open spec fn valid_indices(lists: Seq<Seq<int>>, idx: Seq<int>) -> bool {
    idx.len() == lists.len() && forall|j: int| 0 <= j < lists.len() ==> 0 <= #[trigger] idx[j] < lists[j].len()
}

/// The values that `idx` picks, one from each list.
pub open spec fn picks(lists: Seq<Seq<int>>, idx: Seq<int>) -> Seq<int> {
    Seq::new(lists.len(), |j: int| lists[j][idx[j]])
}

/// Every choice of one value per list stands in the grid, at `flat_index`:
/// the grid is the Cartesian product in order, the first list varying slowest.
pub proof fn lemma_grid_index(lists: Seq<Seq<int>>, idx: Seq<int>)
    requires
        valid_indices(lists, idx),
    ensures
        0 <= flat_index(lists, idx) < size_product(lists),
        grid(lists)[flat_index(lists, idx)] == picks(lists, idx),
    decreases lists.len(),
{
    if lists.len() == 0 {
        assert(picks(lists, idx) =~= Seq::<int>::empty());
    } else {
        let rest = lists.drop_first();
        let ridx = idx.drop_first();
        assert(valid_indices(rest, ridx)) by {
            assert forall|j: int| 0 <= j < rest.len() implies 0 <= #[trigger] ridx[j] < rest[j].len() by {
                assert(ridx[j] == idx[j + 1]);
                assert(rest[j] == lists[j + 1]);
            }
        }
        lemma_grid_index(rest, ridx);
        lemma_grid_size(rest);
        lemma_prefix_all(lists[0], grid(rest));
        let pp = size_product(rest);
        let f = flat_index(rest, ridx);
        let i0 = idx[0];
        assert(0 <= i0 < lists[0].len());
        assert(0 <= i0 * pp + f < lists[0].len() * pp) by (nonlinear_arith)
            requires 0 <= i0 < lists[0].len(), 0 <= f < pp;
        assert(prefix_all(lists[0], grid(rest))[i0 * grid(rest).len() + f] == seq![lists[0][i0]]
            + grid(rest)[f]);
        assert(seq![lists[0][i0]] + picks(rest, ridx) =~= picks(lists, idx));
    }
}

/// Puts `v` in front of each combination of `rest` and appends them to `out`.
fn push_prefixed(out: &mut Vec<Vec<i64>>, v: i64, rest: &Vec<Vec<i64>>)
    ensures
        combos(final(out)@) == combos(old(out)@) + combos(rest@).map_values(
            |c: Seq<int>| seq![v as int] + c,
        ),
{
    let ghost r = combos(rest@).map_values(|c: Seq<int>| seq![v as int] + c);
    assert(combos(out@) =~= combos(old(out)@) + r.subrange(0, 0));
    let mut j: usize = 0;
    while j < rest.len()
        invariant
            j <= rest.len(),
            r.len() == rest@.len(),
            forall|t: int| 0 <= t < r.len() ==> #[trigger] r[t] == seq![v as int] + ints(rest@[t]@),
            combos(out@) == combos(old(out)@) + r.subrange(0, j as int),
        decreases rest.len() - j,
    {
        let src = &rest[j];
        let mut c: Vec<i64> = Vec::new();
        c.push(v);
        let mut k: usize = 0;
        while k < src.len()
            invariant
                k <= src.len(),
                ints(c@) == seq![v as int] + ints(src@).subrange(0, k as int),
            decreases src.len() - k,
        {
            let ghost c0 = c@;
            c.push(src[k]);
            k += 1;
            assert(ints(c@) =~= ints(c0) + seq![src@[k - 1] as int]);
            assert(ints(c@) =~= seq![v as int] + ints(src@).subrange(0, k as int));
        }
        assert(ints(src@).subrange(0, k as int) =~= ints(src@));
        let ghost before = out@;
        out.push(c);
        j += 1;
        assert(combos(out@) =~= combos(before) + seq![ints(c@)]);
        assert(r[j - 1] == seq![v as int] + ints(src@));
        assert(r.subrange(0, j as int) =~= r.subrange(0, j - 1) + seq![r[j - 1]]);
        assert(combos(out@) =~= combos(old(out)@) + r.subrange(0, j as int));
    }
    assert(r.subrange(0, j as int) =~= r);
}

/// Puts each value of `vals` in turn in front of each combination of `rest`.
fn prefix_each(vals: &Vec<i64>, rest: &Vec<Vec<i64>>) -> (r: Vec<Vec<i64>>)
    ensures
        combos(r@) == prefix_all(ints(vals@), combos(rest@)),
{
    let mut out: Vec<Vec<i64>> = Vec::new();
    let mut i: usize = 0;
    while i < vals.len()
        invariant
            i <= vals.len(),
            combos(out@) == prefix_all(ints(vals@).subrange(0, i as int), combos(rest@)),
        decreases vals.len() - i,
    {
        push_prefixed(&mut out, vals[i], rest);
        i += 1;
        let ghost s = ints(vals@).subrange(0, i as int);
        assert(s.drop_last() =~= ints(vals@).subrange(0, i - 1));
    }
    assert(ints(vals@).subrange(0, i as int) =~= ints(vals@));
    out
}

/// Turns each variable into the range of its values.
pub fn generate_loops(vars: &Vec<VariableConfig>) -> (r: Vec<FloatRange>)
    ensures
        r@.len() == vars@.len(),
        forall|i: int|
            0 <= i < r@.len() ==> {
                &&& (#[trigger] r@[i]).current == vars@[i].start
                &&& r@[i].end == vars@[i].end
                &&& r@[i].step == vars@[i].step
            },
{
    let mut r: Vec<FloatRange> = Vec::new();
    let mut i: usize = 0;
    while i < vars.len()
        invariant
            i <= vars.len(),
            r@.len() == i,
            forall|k: int|
                0 <= k < i ==> {
                    &&& (#[trigger] r@[k]).current == vars@[k].start
                    &&& r@[k].end == vars@[k].end
                    &&& r@[k].step == vars@[k].step
                },
        decreases vars.len() - i,
    {
        r.push(FloatRange::new(vars[i].start, vars[i].end, vars[i].step));
        i += 1;
    }
    r
}

/// Every combination of the ranges' values, in order: the first range varies
/// slowest.
pub fn generate_combinations(ranges: &Vec<FloatRange>) -> (r: Vec<Vec<i64>>)
    ensures
        combos(r@) == grid(range_lists(ranges@)),
{
    let ghost lists = range_lists(ranges@);
    let mut acc: Vec<Vec<i64>> = Vec::new();
    acc.push(Vec::new());
    assert(ints(acc@[0]@) =~= Seq::<int>::empty());
    assert(lists.subrange(ranges.len() as int, ranges.len() as int) =~= Seq::<Seq<int>>::empty());
    assert(combos(acc@) =~= grid(lists.subrange(ranges.len() as int, ranges.len() as int)));
    let mut i: usize = ranges.len();
    while i > 0
        invariant
            i <= ranges.len(),
            lists == range_lists(ranges@),
            combos(acc@) == grid(lists.subrange(i as int, ranges.len() as int)),
        decreases i,
    {
        let vals = ranges[i - 1].values();
        acc = prefix_each(&vals, &acc);
        i -= 1;
        let ghost s = lists.subrange(i as int, ranges.len() as int);
        assert(s.drop_first() =~= lists.subrange(i + 1, ranges.len() as int));
        assert(s[0] == lists[i as int]);
    }
    assert(lists.subrange(0, ranges.len() as int) =~= lists);
    acc
}

/// Every combination of `prefix_all` is one longer than those of `rest`.
proof fn lemma_prefix_all_lens(vals: Seq<int>, rest: Seq<Seq<int>>, n: nat)
    requires
        forall|j: int| 0 <= j < rest.len() ==> (#[trigger] rest[j]).len() == n,
    ensures
        forall|k: int|
            0 <= k < prefix_all(vals, rest).len() ==> (#[trigger] prefix_all(vals, rest)[k]).len()
                == n + 1,
    decreases vals.len(),
{
    if vals.len() > 0 {
        lemma_prefix_all_lens(vals.drop_last(), rest, n);
        let p = prefix_all(vals.drop_last(), rest);
        let m = rest.map_values(|c: Seq<int>| seq![vals.last()] + c);
        assert forall|k: int|
            0 <= k < prefix_all(vals, rest).len() implies (#[trigger] prefix_all(
                vals,
                rest,
            )[k]).len() == n + 1 by {
            if k >= p.len() {
                assert(prefix_all(vals, rest)[k] == m[k - p.len()]);
            }
        }
    }
}

/// Every combination of the grid holds one value per list.
pub proof fn lemma_grid_lens(lists: Seq<Seq<int>>)
    ensures
        forall|k: int| 0 <= k < grid(lists).len() ==> (#[trigger] grid(lists)[k]).len() == lists.len(),
    decreases lists.len(),
{
    if lists.len() > 0 {
        lemma_grid_lens(lists.drop_first());
        lemma_prefix_all_lens(lists[0], grid(lists.drop_first()), (lists.len() - 1) as nat);
    }
}

/// The line `name = value` of one parameter.
pub open spec fn assignment_line(name: Seq<char>, v: int) -> Seq<char> {
    name + seq![' ', '=', ' '] + fixed3(v)
}

/// The assignment block of a combination: one line per value, in parameter
/// order, separated by newlines.
pub open spec fn assignment_text(names: Seq<Seq<char>>, vals: Seq<int>) -> Seq<char>
    decreases vals.len(),
{
    if vals.len() == 0 {
        Seq::empty()
    } else if vals.len() == 1 {
        assignment_line(names[0], vals[0])
    } else {
        assignment_text(names, vals.drop_last()) + seq!['\n'] + assignment_line(
            names[vals.len() - 1],
            vals.last(),
        )
    }
}

/// The names of the parameters.
pub open spec fn var_names(vars: Seq<VariableConfig>) -> Seq<Seq<char>> {
    vars.map_values(|v: VariableConfig| v.name@)
}

/// The values of each parameter.
pub open spec fn var_lists(vars: Seq<VariableConfig>) -> Seq<Seq<int>> {
    vars.map_values(|v: VariableConfig| range_values(v.start as int, v.end as int, v.step as int))
}

/// The assignment block of `combo`, naming each value after its parameter.
pub fn combination_text(vars: &Vec<VariableConfig>, combo: &Vec<i64>) -> (r: String)
    requires
        combo@.len() <= vars@.len(),
    ensures
        r@ == assignment_text(var_names(vars@), ints(combo@)),
{
    let ghost names = var_names(vars@);
    let ghost vals = ints(combo@);
    let mut r = String::new();
    let mut i: usize = 0;
    while i < combo.len()
        invariant
            i <= combo@.len() <= vars@.len(),
            names == var_names(vars@),
            vals == ints(combo@),
            r@ == assignment_text(names, vals.subrange(0, i as int)),
        decreases combo.len() - i,
    {
        proof {
            reveal_strlit(" = ");
            reveal_strlit("\n");
        }
        let ghost before = r@;
        if i > 0 {
            r.append("\n");
        }
        let ghost sep = r@;
        r.append(vars[i].name.as_str());
        r.append(" = ");
        push_fixed3(&mut r, combo[i]);
        assert(" = "@ =~= seq![' ', '=', ' ']);
        assert("\n"@ =~= seq!['\n']);
        assert(r@ =~= sep + assignment_line(vars@[i as int].name@, combo@[i as int] as int));
        i += 1;
        let ghost s = vals.subrange(0, i as int);
        assert(s.drop_last() =~= vals.subrange(0, i - 1));
        assert(s.last() == combo@[i - 1] as int);
        assert(names[i - 1] == vars@[i - 1].name@);
        let ghost line = assignment_line(names[i - 1], s.last());
        if i == 1 {
            assert(before.len() == 0);
            assert(r@ =~= line);
        } else {
            assert(r@ =~= before + seq!['\n'] + line);
        }
        assert(r@ =~= assignment_text(names, s));
    }
    assert(vals.subrange(0, i as int) =~= vals);
    r
}

/// The assignment block of every combination of the parameters' values, in
/// enumeration order.
pub fn get_constant_strings(vars: &Vec<VariableConfig>) -> (r: Vec<String>)
    ensures
        r@.len() == grid(var_lists(vars@)).len(),
        forall|k: int|
            0 <= k < r@.len() ==> (#[trigger] r@[k])@ == assignment_text(
                var_names(vars@),
                grid(var_lists(vars@))[k],
            ),
{
    let loops = generate_loops(vars);
    assert(range_lists(loops@) =~= var_lists(vars@));
    let combinations = generate_combinations(&loops);
    let ghost g = grid(var_lists(vars@));
    proof {
        lemma_grid_lens(var_lists(vars@));
    }
    let mut r: Vec<String> = Vec::new();
    let mut i: usize = 0;
    while i < combinations.len()
        invariant
            i <= combinations@.len(),
            g == grid(var_lists(vars@)),
            combos(combinations@) == g,
            forall|k: int| 0 <= k < g.len() ==> (#[trigger] g[k]).len() == vars@.len(),
            r@.len() == i,
            forall|k: int|
                0 <= k < i ==> (#[trigger] r@[k])@ == assignment_text(var_names(vars@), g[k]),
        decreases combinations.len() - i,
    {
        assert(g[i as int] == ints(combinations@[i as int]@));
        let line = combination_text(vars, &combinations[i]);
        r.push(line);
        i += 1;
    }
    r
}

} // verus!
