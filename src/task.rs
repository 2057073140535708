use vstd::prelude::*;

use crate::float_range::ints;
use crate::metric::{get_profit, opt_int, output_metric};
use crate::text::{fixed3, push_fixed3};

verus! {

broadcast use vstd::string::group_string_axioms;

/// How one run of the evaluated program ended.
pub enum RunOutcome {
    /// The program exited by itself, with what it printed and whether its
    /// exit status was success.
    Completed { stdout: String, success: bool },
    /// The program ran past the timeout and was killed.
    TimedOut,
    /// The program could not be started.
    SpawnFailed,
}

/// The metric that a run yields: only a run that completed with success
/// reports one, and then only if its output holds one.
pub open spec fn outcome_metric(outcome: RunOutcome) -> Option<int> {
    match outcome {
        RunOutcome::Completed { stdout, success } => if success {
            output_metric(stdout@)
        } else {
            None
        },
        RunOutcome::TimedOut => None,
        RunOutcome::SpawnFailed => None,
    }
}

/// The metric of a task from how its run ended; a timeout, a failed start or
/// a failed exit leaves the task without a metric.
pub fn task_metric(outcome: &RunOutcome) -> (r: Option<i64>)
    ensures
        opt_int(r) == outcome_metric(*outcome),
        *outcome is TimedOut ==> r is None,
        *outcome is SpawnFailed ==> r is None,
{
    match outcome {
        RunOutcome::Completed { stdout, success } => {
            if *success {
                get_profit(stdout.as_str())
            } else {
                None
            }
        },
        RunOutcome::TimedOut => None,
        RunOutcome::SpawnFailed => None,
    }
}

/// Each value in three-decimal notation, each followed by a comma.
pub open spec fn value_cells(vals: Seq<int>) -> Seq<char>
    decreases vals.len(),
{
    if vals.len() == 0 {
        Seq::empty()
    } else {
        value_cells(vals.drop_last()) + fixed3(vals.last()) + seq![',']
    }
}

/// The record row of one task: its parameter values, then its metric, or 0
/// where it has none, separated by commas.
pub open spec fn report_row_text(vals: Seq<int>, metric: Option<int>) -> Seq<char> {
    value_cells(vals) + fixed3(
        match metric {
            Some(m) => m,
            None => 0,
        },
    )
}

/// The record row of a task with the parameter values `combo`.
pub fn report_row(combo: &Vec<i64>, metric: Option<i64>) -> (r: String)
    ensures
        r@ == report_row_text(ints(combo@), opt_int(metric)),
{
    let mut r = String::new();
    let mut i: usize = 0;
    while i < combo.len()
        invariant
            i <= combo@.len(),
            r@ == value_cells(ints(combo@).subrange(0, i as int)),
        decreases combo.len() - i,
    {
        proof {
            reveal_strlit(",");
        }
        push_fixed3(&mut r, combo[i]);
        r.append(",");
        i += 1;
        let ghost s = ints(combo@).subrange(0, i as int);
        assert(s.drop_last() =~= ints(combo@).subrange(0, i - 1));
        assert(r@ =~= value_cells(s));
    }
    assert(ints(combo@).subrange(0, i as int) =~= ints(combo@));
    let m: i64 = match metric {
        Some(v) => v,
        None => 0,
    };
    push_fixed3(&mut r, m);
    r
}

} // verus!
