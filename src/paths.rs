use vstd::prelude::*;

use crate::text::{decimal, push_decimal};

verus! {

broadcast use vstd::string::group_string_axioms;

/// The first index of the bucket of 100 that holds index `i`.
pub open spec fn bucket_start(i: nat) -> nat {
    (i / 100) * 100
}

/// The name of the bucket of index `i`: `<first>-<last>`, e.g. `200-299`.
pub open spec fn bucket_name(i: nat) -> Seq<char> {
    decimal(bucket_start(i)) + seq!['-'] + decimal(bucket_start(i) + 99)
}

/// `<dir>/<bucket>/<sub>/<stem><index><ext>`.
pub open spec fn shard_path(
    dir: Seq<char>,
    i: nat,
    sub: Seq<char>,
    stem: Seq<char>,
    ext: Seq<char>,
) -> Seq<char> {
    dir + seq!['/'] + bucket_name(i) + seq!['/'] + sub + seq!['/'] + stem + decimal(i) + ext
}

/// Where the log of task `i` goes: `<dir>/<bucket>/logs/log_<i>.txt`.
pub open spec fn log_path(dir: Seq<char>, i: nat) -> Seq<char> {
    shard_path(dir, i, seq!['l', 'o', 'g', 's'], seq!['l', 'o', 'g', '_'], seq!['.', 't', 'x', 't'])
}

/// Where the script of task `i` goes: `<dir>/<bucket>/scripts/script_<i>.py`.
pub open spec fn script_path(dir: Seq<char>, i: nat) -> Seq<char> {
    shard_path(
        dir,
        i,
        seq!['s', 'c', 'r', 'i', 'p', 't', 's'],
        seq!['s', 'c', 'r', 'i', 'p', 't', '_'],
        seq!['.', 'p', 'y'],
    )
}

/// Each index lies in its own bucket, which spans 100 indices starting at a
/// multiple of 100; two indices share a bucket exactly when they agree on
/// their hundreds, so the buckets are contiguous and do not overlap.
pub proof fn lemma_buckets(i: nat, j: nat)
    ensures
        bucket_start(i) <= i <= bucket_start(i) + 99,
        bucket_start(i) % 100 == 0,
        bucket_start(i) == bucket_start(j) <==> i / 100 == j / 100,
        bucket_start(i) + 100 == bucket_start(i + 100),
{
    assert(bucket_start(i) <= i <= bucket_start(i) + 99) by (nonlinear_arith);
    assert(bucket_start(i) % 100 == 0) by (nonlinear_arith);
    assert(bucket_start(i) == bucket_start(j) <==> i / 100 == j / 100) by (nonlinear_arith);
    assert((i + 100) / 100 == i / 100 + 1) by (nonlinear_arith);
    assert(bucket_start(i) + 100 == bucket_start(i + 100)) by (nonlinear_arith)
        requires (i + 100) / 100 == i / 100 + 1;
}

/// Appends `<dir>/<bucket of i>` to `out`.
fn push_bucket_dir(out: &mut String, logs_dir: &str, i: usize)
    ensures
        final(out)@ == old(out)@ + logs_dir@ + seq!['/'] + bucket_name(i as nat),
{
    proof {
        reveal_strlit("/");
        reveal_strlit("-");
    }
    let start: u128 = ((i / 100) * 100) as u128;
    out.append(logs_dir);
    out.append("/");
    push_decimal(out, start);
    out.append("-");
    push_decimal(out, start + 99);
    assert(final(out)@ =~= old(out)@ + logs_dir@ + seq!['/'] + bucket_name(i as nat));
}

/// The path of the log file of task `i` under `logs_dir`.
pub fn get_log_path(i: usize, logs_dir: &str) -> (r: String)
    ensures
        r@ == log_path(logs_dir@, i as nat),
{
    proof {
        reveal_strlit("/logs/log_");
        reveal_strlit(".txt");
    }
    let mut r = String::new();
    push_bucket_dir(&mut r, logs_dir, i);
    r.append("/logs/log_");
    push_decimal(&mut r, i as u128);
    r.append(".txt");
    assert(r@ =~= log_path(logs_dir@, i as nat));
    r
}

/// The path of the script file of task `i` under `logs_dir`.
pub fn get_script_path(i: usize, logs_dir: &str) -> (r: String)
    ensures
        r@ == script_path(logs_dir@, i as nat),
{
    proof {
        reveal_strlit("/scripts/script_");
        reveal_strlit(".py");
    }
    let mut r = String::new();
    push_bucket_dir(&mut r, logs_dir, i);
    r.append("/scripts/script_");
    push_decimal(&mut r, i as u128);
    r.append(".py");
    assert(r@ =~= script_path(logs_dir@, i as nat));
    r
}

/// The directory of every bucket that `total` tasks need, in order: bucket
/// `k` holds the tasks `100 * k` to `100 * k + 99`.
pub fn bucket_dirs(total: usize, logs_dir: &str) -> (r: Vec<String>)
    ensures
        r@.len() == (total as nat + 99) / 100,
        forall|k: int|
            0 <= k < r@.len() ==> (#[trigger] r@[k])@ == logs_dir@ + seq!['/'] + bucket_name(
                (k * 100) as nat,
            ),
{
    let n: usize = total / 100 + if total % 100 == 0 {
        0
    } else {
        1
    };
    assert(n == (total as nat + 99) / 100) by (nonlinear_arith)
        requires n == total / 100 + if total % 100 == 0 { 0int } else { 1int };
    let mut r: Vec<String> = Vec::new();
    let mut k: usize = 0;
    while k < n
        invariant
            k <= n,
            n <= total / 100 + 1,
            r@.len() == k,
            forall|t: int|
                0 <= t < k ==> (#[trigger] r@[t])@ == logs_dir@ + seq!['/'] + bucket_name(
                    (t * 100) as nat,
                ),
        decreases n - k,
    {
        assert(k * 100 <= total + 100) by (nonlinear_arith)
            requires k < n, n <= total / 100 + 1;
        let mut d = String::new();
        push_bucket_dir(&mut d, logs_dir, k * 100);
        assert(d@ =~= logs_dir@ + seq!['/'] + bucket_name((k * 100) as nat));
        r.push(d);
        k += 1;
    }
    r
}

} // verus!
