use vstd::prelude::*;

use crate::metric::opt_int;

verus! {

/// A result as the aggregator sees it: its metric, if any, and the assignment
/// block of its combination.
pub type Outcome = (Option<int>, Seq<char>);

/// Whether `metric` strictly beats `best` (no metric beats nothing, and no
/// best yet is beaten by any metric).
pub open spec fn improves(metric: Option<int>, best: Option<int>) -> bool {
    match metric {
        None => false,
        Some(m) => match best {
            None => true,
            Some(b) => m > b,
        },
    }
}

/// The best state after one more result.
pub open spec fn apply(state: Outcome, r: Outcome) -> Outcome {
    if improves(r.0, state.0) {
        r
    } else {
        state
    }
}

/// The best state after the results `rs`, in the order in which they came.
pub open spec fn fold_best(state: Outcome, rs: Seq<Outcome>) -> Outcome
    decreases rs.len(),
{
    if rs.len() == 0 {
        state
    } else {
        apply(fold_best(state, rs.drop_last()), rs.last())
    }
}

/// `m` is no more than `top` (an absent metric is below everything).
pub open spec fn at_most(m: Option<int>, top: Option<int>) -> bool {
    match m {
        None => true,
        Some(v) => match top {
            None => false,
            Some(t) => v <= t,
        },
    }
}

/// After any sequence of results, the best metric is at least that of each
/// result and of the starting state; the best state is either the starting
/// state or one of the results that has a metric, so a result without a
/// metric never becomes the best; and it differs from the starting state only
/// by strictly beating it.
pub proof fn lemma_fold_best(state: Outcome, rs: Seq<Outcome>)
    ensures
        at_most(state.0, fold_best(state, rs).0),
        forall|j: int| 0 <= j < rs.len() ==> at_most(#[trigger] rs[j].0, fold_best(state, rs).0),
        fold_best(state, rs) == state || exists|j: int|
            0 <= j < rs.len() && (#[trigger] rs[j]).0 is Some && fold_best(state, rs) == rs[j],
        fold_best(state, rs) == state || improves(fold_best(state, rs).0, state.0),
    decreases rs.len(),
{
    if rs.len() > 0 {
        let init = rs.drop_last();
        lemma_fold_best(state, init);
        let prev = fold_best(state, init);
        assert forall|j: int| 0 <= j < rs.len() implies at_most(
            #[trigger] rs[j].0,
            fold_best(state, rs).0,
        ) by {
            if j < init.len() {
                assert(rs[j] == init[j]);
                assert(at_most(init[j].0, prev.0));
            }
        }
        if fold_best(state, rs) != state && fold_best(state, rs) != rs.last() {
            let j = choose|j: int|
                0 <= j < init.len() && (#[trigger] init[j]).0 is Some && prev == init[j];
            assert(rs[j] == init[j]);
        }
    }
}

/// Results without a metric leave the best state as it was, however many
/// arrive.
pub proof fn lemma_absent_keeps(state: Outcome, rs: Seq<Outcome>)
    requires
        forall|j: int| 0 <= j < rs.len() ==> (#[trigger] rs[j]).0 is None,
    ensures
        fold_best(state, rs) == state,
    decreases rs.len(),
{
    if rs.len() > 0 {
        lemma_absent_keeps(state, rs.drop_last());
    }
}

/// Whatever the order in which results arrive, a result whose metric beats
/// every other result's and the starting state's ends up as the best state.
pub proof fn lemma_unique_top_wins(state: Outcome, rs: Seq<Outcome>, w: int)
    requires
        0 <= w < rs.len(),
        rs[w].0 is Some,
        improves(rs[w].0, state.0),
        forall|j: int| 0 <= j < rs.len() && j != w ==> improves(rs[w].0, #[trigger] rs[j].0),
    ensures
        fold_best(state, rs) == rs[w],
{
    lemma_fold_best(state, rs);
    let f = fold_best(state, rs);
    assert(at_most(rs[w].0, f.0));
    if f == state {
    } else {
        let j = choose|j: int| 0 <= j < rs.len() && (#[trigger] rs[j]).0 is Some && f == rs[j];
        if j != w {
            assert(improves(rs[w].0, rs[j].0));
        }
    }
}

/// Two runs that see the same results, in any order, end with the same best
/// metric; and with the same best state as long as results that reach the top
/// metric agree on their combination.
pub proof fn lemma_order_independent(state: Outcome, rs1: Seq<Outcome>, rs2: Seq<Outcome>)
    requires
        forall|x: Outcome| rs1.contains(x) <==> rs2.contains(x),
    ensures
        fold_best(state, rs1).0 == fold_best(state, rs2).0,
        (forall|j: int, k: int|
            0 <= j < rs1.len() && 0 <= k < rs1.len() && (#[trigger] rs1[j]).0 == (#[trigger] rs1[k]).0
                && (forall|l: int| 0 <= l < rs1.len() ==> at_most(#[trigger] rs1[l].0, rs1[j].0))
                ==> rs1[j] == rs1[k]) ==> fold_best(state, rs1) == fold_best(state, rs2),
{
    lemma_fold_best(state, rs1);
    lemma_fold_best(state, rs2);
    let f1 = fold_best(state, rs1);
    let f2 = fold_best(state, rs2);
    // each final metric is reached by the other run's bound
    if f1 != state {
        let j = choose|j: int| 0 <= j < rs1.len() && (#[trigger] rs1[j]).0 is Some && f1 == rs1[j];
        assert(rs1.contains(rs1[j]));
        let k = choose|k: int| 0 <= k < rs2.len() && rs2[k] == rs1[j];
        assert(at_most(rs2[k].0, f2.0));
    }
    if f2 != state {
        let j = choose|j: int| 0 <= j < rs2.len() && (#[trigger] rs2[j]).0 is Some && f2 == rs2[j];
        assert(rs2.contains(rs2[j]));
        let k = choose|k: int| 0 <= k < rs1.len() && rs1[k] == rs2[j];
        assert(at_most(rs1[k].0, f1.0));
    }
    assert(f1.0 == f2.0);
    if f1 != f2 && f1 != state && f2 != state && (forall|j: int, k: int|
        0 <= j < rs1.len() && 0 <= k < rs1.len() && (#[trigger] rs1[j]).0 == (#[trigger] rs1[k]).0
            && (forall|l: int| 0 <= l < rs1.len() ==> at_most(#[trigger] rs1[l].0, rs1[j].0))
            ==> rs1[j] == rs1[k]) {
        let j = choose|j: int| 0 <= j < rs1.len() && (#[trigger] rs1[j]).0 is Some && f1 == rs1[j];
        let j2 = choose|j: int| 0 <= j < rs2.len() && (#[trigger] rs2[j]).0 is Some && f2 == rs2[j];
        assert(rs2.contains(rs2[j2]));
        let k = choose|k: int| 0 <= k < rs1.len() && rs1[k] == rs2[j2];
        assert(forall|l: int| 0 <= l < rs1.len() ==> at_most(#[trigger] rs1[l].0, rs1[j].0));
        assert(rs1[j] == rs1[k]);
    }
}

/// The best result seen so far: its metric (`None` until a result with a
/// metric arrives) and its assignment block.
pub struct BestState {
    pub max_metric: Option<i64>,
    pub constants: String,
}

impl View for BestState {
    type V = Outcome;

    open spec fn view(&self) -> Outcome {
        (opt_int(self.max_metric), self.constants@)
    }
}

impl BestState {
    /// No best yet.
    pub fn new() -> (r: BestState)
        ensures
            r@ == (None::<int>, Seq::<char>::empty()),
    {
        BestState { max_metric: None, constants: String::new() }
    }

    /// Takes in one result: it becomes the best when its metric strictly
    /// beats the current one. Returns whether it did, that is whether the new
    /// best must be persisted.
    pub fn record(&mut self, metric: Option<i64>, constants: &str) -> (improved: bool)
        ensures
            improved == improves(opt_int(metric), old(self)@.0),
            final(self)@ == apply(old(self)@, (opt_int(metric), constants@)),
    {
        let better = match (metric, self.max_metric) {
            (None, _) => false,
            (Some(m), None) => true,
            (Some(m), Some(b)) => m > b,
        };
        if better {
            self.max_metric = metric;
            self.constants = constants.to_owned();
        }
        better
    }
}

} // verus!
