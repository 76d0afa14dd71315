use vstd::prelude::*;

verus! {

/// The round-robin policy: the n-th submission overall goes to worker
/// `n mod parallel`. This is the one executable decision the dispatcher
/// makes while it holds the pool's lock.
pub fn dispatch_target(next: usize, parallel: usize) -> (w: usize)
    requires
        parallel > 0,
    ensures
        w == next % parallel,
        w < parallel,
{
    next % parallel
}

/// Of the submissions `ts`, made back to back while the dispatch counter
/// runs from `start`, the ones routed to worker `w`, in submission order.
pub open spec fn routed_to<T>(ts: Seq<T>, start: nat, parallel: nat, w: nat) -> Seq<T>
    decreases ts.len(),
{
    if ts.len() == 0 {
        Seq::empty()
    } else {
        let rest = routed_to(ts.drop_first(), start + 1, parallel, w);
        if start % parallel == w {
            seq![ts[0]] + rest
        } else {
            rest
        }
    }
}

/// Appending one more submission extends exactly one worker's share — the
/// worker the counter then points at — and leaves every other share alone.
pub proof fn lemma_routed_to_push<T>(ts: Seq<T>, t: T, start: nat, parallel: nat, w: nat)
    requires
        parallel > 0,
    ensures
        routed_to(ts.push(t), start, parallel, w) == if (start + ts.len()) % parallel == w {
            routed_to(ts, start, parallel, w).push(t)
        } else {
            routed_to(ts, start, parallel, w)
        },
    decreases ts.len(),
{
    broadcast use vstd::seq_lib::group_seq_lib_default;

    if ts.len() == 0 {
        let one = ts.push(t);
        assert(one[0] == t);
        assert(one.drop_first() =~= Seq::<T>::empty());
        assert(routed_to(one.drop_first(), start + 1, parallel, w) == Seq::<T>::empty());
        assert(routed_to(ts, start, parallel, w) == Seq::<T>::empty());
        if start % parallel == w {
            assert(routed_to(one, start, parallel, w) == seq![t] + Seq::<T>::empty());
            assert(seq![t] + Seq::<T>::empty() =~= Seq::<T>::empty().push(t));
        }
    } else {
        assert(ts.push(t)[0] == ts[0]);
        assert(ts.push(t).drop_first() =~= ts.drop_first().push(t));
        assert(start + 1 + ts.drop_first().len() == start + ts.len());
        lemma_routed_to_push(ts.drop_first(), t, start + 1, parallel, w);
        if start % parallel == w {
            if (start + ts.len()) % parallel == w {
                assert(seq![ts[0]] + routed_to(ts.drop_first(), start + 1, parallel, w).push(t)
                    =~= (seq![ts[0]] + routed_to(ts.drop_first(), start + 1, parallel, w)).push(
                    t,
                ));
            }
        }
    }
}

/// Cutting the submission list after its `i`-th entry: each worker's share
/// of the shorter list is a prefix of its share of the full list.
pub proof fn lemma_routed_to_take_prefix<T>(ts: Seq<T>, start: nat, parallel: nat, w: nat, i: int)
    requires
        parallel > 0,
        0 <= i <= ts.len(),
    ensures
        routed_to(ts.take(i), start, parallel, w).is_prefix_of(
            routed_to(ts, start, parallel, w),
        ),
    decreases ts.len() - i,
{
    if i == ts.len() {
        assert(ts.take(i) =~= ts);
        assert(routed_to(ts, start, parallel, w).is_prefix_of(
            routed_to(ts, start, parallel, w),
        ));
    } else {
        assert(ts.take(i + 1) =~= ts.take(i).push(ts[i]));
        lemma_routed_to_push(ts.take(i), ts[i], start, parallel, w);
        lemma_routed_to_take_prefix(ts, start, parallel, w, i + 1);
        assert(routed_to(ts.take(i), start, parallel, w).is_prefix_of(
            routed_to(ts.take(i + 1), start, parallel, w),
        ));
    }
}

/// Where the `i`-th submission lands: in the share of worker
/// `(start + i) mod parallel`, directly after the earlier submissions
/// routed to that same worker.
pub proof fn lemma_routed_to_index<T>(ts: Seq<T>, start: nat, parallel: nat, i: int)
    requires
        parallel > 0,
        0 <= i < ts.len(),
    ensures
        ({
            let w = ((start + i) % (parallel as int)) as nat;
            let pos = routed_to(ts.take(i), start, parallel, w).len();
            pos < routed_to(ts, start, parallel, w).len() && routed_to(ts, start, parallel, w)[
                pos as int
            ] == ts[i]
        }),
{
    let w = ((start + i) % (parallel as int)) as nat;
    let pos = routed_to(ts.take(i), start, parallel, w).len();
    assert(ts.take(i + 1) =~= ts.take(i).push(ts[i]));
    lemma_routed_to_push(ts.take(i), ts[i], start, parallel, w);
    assert(routed_to(ts.take(i + 1), start, parallel, w) == routed_to(
        ts.take(i),
        start,
        parallel,
        w,
    ).push(ts[i]));
    lemma_routed_to_take_prefix(ts, start, parallel, w, i + 1);
    assert(routed_to(ts, start, parallel, w)[pos as int] == routed_to(
        ts.take(i + 1),
        start,
        parallel,
        w,
    )[pos as int]);
}

/// Per-worker first-in-first-out on the producing side: of two submissions
/// routed to the same worker, the earlier one stands earlier in that
/// worker's share, so the worker receives it first.
pub proof fn lemma_routed_to_order<T>(
    ts: Seq<T>,
    start: nat,
    parallel: nat,
    i1: int,
    i2: int,
)
    requires
        parallel > 0,
        0 <= i1 < i2 < ts.len(),
        (start + i1) % (parallel as int) == (start + i2) % (parallel as int),
    ensures
        ({
            let w = ((start + i1) % (parallel as int)) as nat;
            routed_to(ts.take(i1), start, parallel, w).len() < routed_to(
                ts.take(i2),
                start,
                parallel,
                w,
            ).len()
        }),
{
    let w = ((start + i1) % (parallel as int)) as nat;
    assert(ts.take(i1 + 1) =~= ts.take(i1).push(ts[i1]));
    lemma_routed_to_push(ts.take(i1), ts[i1], start, parallel, w);
    assert(ts.take(i2).take(i1 + 1) =~= ts.take(i1 + 1));
    lemma_routed_to_take_prefix(ts.take(i2), start, parallel, w, i1 + 1);
}

} // verus!
