use vstd::prelude::*;

verus! {

/// Whether a walk at `cur` towards `end` by `step` still yields `cur`.
/// A zero step, or a step that points away from `end`, yields nothing.
pub open spec fn in_bound(cur: int, end: int, step: int) -> bool {
    (step > 0 && cur < end) || (step < 0 && cur > end)
}

/// How far a walk at `cur` is from its end.
pub open spec fn walk_measure(cur: int, end: int, step: int) -> int {
    if !in_bound(cur, end, step) {
        0
    } else if step > 0 {
        end - cur
    } else {
        cur - end
    }
}

/// The values of a walk from `cur`: take the current value while it lies
/// strictly before `end` in the direction of `step`, then add `step`.
pub open spec fn range_values(cur: int, end: int, step: int) -> Seq<int>
    decreases walk_measure(cur, end, step),
{
    if in_bound(cur, end, step) {
        seq![cur] + range_values(cur + step, end, step)
    } else {
        Seq::empty()
    }
}

/// The values of a vector of fixed-point numbers, as integers.
pub open spec fn ints(v: Seq<i64>) -> Seq<int> {
    v.map_values(|x: i64| x as int)
}

/// The walk yields exactly the values `start + k * step` that lie before `end`,
/// in order: the `k`-th value is `start + k * step`, each of them is in bound,
/// and the first value left out is not. A step that makes no progress towards
/// `end` yields nothing.
pub proof fn lemma_range_values(start: int, end: int, step: int)
    ensures
        forall|k: int|
            0 <= k < range_values(start, end, step).len() ==> {
                &&& #[trigger] range_values(start, end, step)[k] == start + k * step
                &&& in_bound(start + k * step, end, step)
            },
        !in_bound(start + range_values(start, end, step).len() * step, end, step),
        !in_bound(start, end, step) ==> range_values(start, end, step).len() == 0,
    decreases walk_measure(start, end, step),
{
    if in_bound(start, end, step) {
        lemma_range_values(start + step, end, step);
        let rest = range_values(start + step, end, step);
        let all = range_values(start, end, step);
        assert(all == seq![start] + rest);
        assert forall|k: int| 0 <= k < all.len() implies {
            &&& #[trigger] all[k] == start + k * step
            &&& in_bound(start + k * step, end, step)
        } by {
            if k > 0 {
                assert(all[k] == rest[k - 1]);
                assert(start + step + (k - 1) * step == start + k * step) by (nonlinear_arith);
            } else {
                assert(start + 0 * step == start) by (nonlinear_arith);
            }
        }
        assert(start + step + rest.len() * step == start + all.len() * step) by (nonlinear_arith)
            requires all.len() == rest.len() + 1;
    } else {
        assert(start + 0 * step == start) by (nonlinear_arith);
    }
}

/// A walk over fixed-point values, each a count of thousandths: it yields
/// `current`, `current + step`, ... while the value lies before `end`.
pub struct FloatRange {
    pub current: i64,
    pub end: i64,
    pub step: i64,
}

impl FloatRange {
    /// The values still to come.
    pub open spec fn remaining(&self) -> Seq<int> {
        range_values(self.current as int, self.end as int, self.step as int)
    }

    pub fn new(start: i64, end: i64, step: i64) -> (r: FloatRange)
        ensures
            r.current == start,
            r.end == end,
            r.step == step,
            r.remaining() == range_values(start as int, end as int, step as int),
    {
        FloatRange { current: start, end, step }
    }

    /// Yields the next value, or `None` once the walk is over. A step moves
    /// `current` on by `step`; where that sum leaves the range of `i64` the
    /// walk is past `end` in any case, and `current` becomes `end`.
    pub fn next(&mut self) -> (r: Option<i64>)
        ensures
            old(self).remaining().len() == 0 ==> r is None && *final(self) == *old(self),
            old(self).remaining().len() > 0 ==> {
                &&& r == Some(old(self).current)
                &&& final(self).current == if i64::MIN <= old(self).current + old(self).step
                    <= i64::MAX {
                    old(self).current + old(self).step
                } else {
                    old(self).end as int
                }
                &&& final(self).remaining() == old(self).remaining().drop_first()
            },
            final(self).end == old(self).end,
            final(self).step == old(self).step,
    {
        if !((self.step > 0 && self.current < self.end) || (self.step < 0 && self.current
            > self.end)) {
            return None;
        }
        let res = self.current;
        let next: i128 = self.current as i128 + self.step as i128;
        if next < i64::MIN as i128 || next > i64::MAX as i128 {
            self.current = self.end;
        } else {
            self.current = next as i64;
        }
        assert(old(self).remaining() == seq![res as int] + range_values(
            res + self.step,
            self.end as int,
            self.step as int,
        ));
        assert(old(self).remaining().drop_first() =~= range_values(
            res + self.step,
            self.end as int,
            self.step as int,
        ));
        Some(res)
    }

    /// All values still to come, in order.
    pub fn values(&self) -> (r: Vec<i64>)
        ensures
            ints(r@) == self.remaining(),
    {
        let mut it = FloatRange { current: self.current, end: self.end, step: self.step };
        let mut r: Vec<i64> = Vec::new();
        loop
            invariant
                ints(r@) + it.remaining() == self.remaining(),
            decreases it.remaining().len(),
        {
            let ghost before = r@;
            match it.next() {
                Some(v) => {
                    r.push(v);
                    assert(ints(r@) =~= ints(before) + seq![v as int]);
                },
                None => {
                    assert(ints(r@) =~= ints(r@) + it.remaining());
                    return r;
                },
            }
        }
    }
}

} // verus!
