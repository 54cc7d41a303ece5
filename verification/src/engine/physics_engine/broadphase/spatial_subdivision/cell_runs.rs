use vstd::prelude::*;

verus! {

/// The state that the run-length scan carries from one cell to the next:
/// (index of the next cell, key of the previous cell, length of the current
/// run, entries emitted so far as (start, count)).
pub type RunState = (int, int, int, Seq<(int, int)>);

/// One step of the scan over the sorted cell keys, for the cell at index
/// `st.0` with key `x`. A change of key emits the run that just ended; the last
/// cell emits the final run. A last cell that starts a run of its own is
/// emitted as `(index - 1, 1)`.
pub open spec fn run_step(st: RunState, x: int, last: int) -> RunState {
    let (i, prev, count, acc) = st;
    if prev != x {
        let acc1 = acc.push((i - count, count));
        let acc2 = if i == last {
            acc1.push((i - 1, 1))
        } else {
            acc1
        };
        (i + 1, x, 1, acc2)
    } else {
        let acc1 = if i == last {
            acc.push((i - count, count + 1))
        } else {
            acc
        };
        (i + 1, x, count + 1, acc1)
    }
}

/// The scan after the first `n` keys of `h`, starting with a previous key of 0.
pub open spec fn run_scan(h: Seq<int>, n: nat) -> RunState
    decreases n,
{
    if n == 0 {
        (0, 0, 0, Seq::empty())
    } else {
        run_step(run_scan(h, (n - 1) as nat), h[n - 1], h.len() - 1)
    }
}

/// The (start, count) entries that the scan emits over all of `h`.
pub open spec fn run_entries(h: Seq<int>) -> Seq<(int, int)> {
    run_scan(h, h.len()).3
}

/// Keys on which the scan is defined: at least one, and not a single key
/// other than 0 (whose entry would start before the first cell).
pub open spec fn scannable(h: Seq<int>) -> bool {
    h.len() >= 1 && !(h.len() == 1 && h[0] != 0)
}

/// Sum of the counts of the entries.
pub open spec fn sum_counts(acc: Seq<(int, int)>) -> int
    decreases acc.len(),
{
    if acc.len() == 0 {
        0
    } else {
        sum_counts(acc.drop_last()) + acc.last().1
    }
}

/// The entry lies within the keys and all keys in its range are equal.
pub open spec fn is_run(h: Seq<int>, e: (int, int)) -> bool {
    &&& 0 <= e.0
    &&& 0 <= e.1
    &&& e.0 + e.1 <= h.len()
    &&& forall|k: int| e.0 <= k < e.0 + e.1 ==> #[trigger] h[k] == h[e.0]
}

/// The entry's range holds the positions `p` to `q`.
pub open spec fn covers(e: (int, int), p: int, q: int) -> bool {
    e.0 <= p && q < e.0 + e.1
}

/// All keys from position `p` to position `q` are equal.
pub open spec fn equal_range(h: Seq<int>, p: int, q: int) -> bool {
    forall|k: int| p <= k <= q ==> #[trigger] h[k] == h[p]
}

/// What holds of the scan after `n` keys, before the last one.
pub open spec fn scan_inv(h: Seq<int>, n: int) -> bool {
    let st = run_scan(h, n as nat);
    let (i, prev, count, acc) = st;
    &&& i == n
    &&& 1 <= count <= n
    &&& prev == h[n - 1]
    &&& forall|k: int| n - count <= k < n ==> #[trigger] h[k] == h[n - 1]
    &&& (n - count == 0 || h[n - count - 1] != h[n - count])
    &&& forall|j: int| 0 <= j < acc.len() ==> is_run(h, #[trigger] acc[j])
    &&& forall|j: int| 0 <= j < acc.len() ==> #[trigger] acc[j].0 + acc[j].1 <= n - count
    &&& forall|j1: int, j2: int|
        0 <= j1 < j2 < acc.len() ==> #[trigger] acc[j1].0 + acc[j1].1 <= #[trigger] acc[j2].0
    &&& sum_counts(acc) + count == n
    &&& forall|p: int, q: int|
        0 <= p < q < n && #[trigger] equal_range(h, p, q) ==> (n - count <= p || exists|j: int|
            0 <= j < acc.len() && #[trigger] covers(acc[j], p, q))
}

proof fn lemma_sum_counts_push(acc: Seq<(int, int)>, e: (int, int))
    ensures
        sum_counts(acc.push(e)) == sum_counts(acc) + e.1,
{
    assert(acc.push(e).drop_last() =~= acc);
}

pub(crate) proof fn lemma_scan_inv(h: Seq<int>, n: int)
    requires
        scannable(h),
        1 <= n < h.len(),
    ensures
        scan_inv(h, n),
    decreases n,
{
    let last = h.len() - 1;
    if n == 1 {
        let st0 = run_scan(h, 0);
        assert(st0 == (0int, 0int, 0int, Seq::<(int, int)>::empty()));
        let st = run_scan(h, 1);
        assert(st == run_step(st0, h[0], last));
        if h[0] != 0 {
            lemma_sum_counts_push(Seq::<(int, int)>::empty(), (0, 0));
            assert(st.3 =~= seq![(0int, 0int)]);
        } else {
            assert(st.3 =~= Seq::<(int, int)>::empty());
        }
        assert forall|p: int, q: int|
            0 <= p < q < n && #[trigger] equal_range(h, p, q) implies (n - st.2 <= p || exists|
                j: int,
            |
                0 <= j < st.3.len() && #[trigger] covers(st.3[j], p, q)) by {}
    } else {
        lemma_scan_inv(h, n - 1);
        let prev_st = run_scan(h, (n - 1) as nat);
        let st = run_scan(h, n as nat);
        assert(st == run_step(prev_st, h[n - 1], last));
        let (i0, prev0, count0, acc0) = prev_st;
        assert(i0 == n - 1);
        assert(i0 != last);
        if prev0 != h[n - 1] {
            let e = (i0 - count0, count0);
            assert(st.3 == acc0.push(e));
            lemma_sum_counts_push(acc0, e);
            assert(is_run(h, e));
            assert forall|j: int| 0 <= j < st.3.len() implies is_run(h, #[trigger] st.3[j]) by {
                if j < acc0.len() {
                    assert(st.3[j] == acc0[j]);
                }
            }
            assert forall|j1: int, j2: int|
                0 <= j1 < j2 < st.3.len() implies #[trigger] st.3[j1].0 + st.3[j1].1
                <= #[trigger] st.3[j2].0 by {
                assert(st.3[j1] == acc0[j1]);
                if j2 < acc0.len() {
                    assert(st.3[j2] == acc0[j2]);
                }
            }
            assert forall|p: int, q: int|
                0 <= p < q < n && #[trigger] equal_range(h, p, q) implies (n - st.2 <= p || exists|
                    j: int,
                |
                    0 <= j < st.3.len() && #[trigger] covers(st.3[j], p, q)) by {
                if q == n - 1 {
                    assert(h[q - 1] == h[p]);
                    assert(h[q] == h[p]);
                } else if n - 1 - count0 <= p {
                    assert(covers(st.3[acc0.len() as int], p, q));
                } else {
                    let j = choose|j: int| 0 <= j < acc0.len() && #[trigger] covers(acc0[j], p, q);
                    assert(st.3[j] == acc0[j]);
                    assert(covers(st.3[j], p, q));
                }
            }
        } else {
            assert(st.3 == acc0);
            assert forall|p: int, q: int|
                0 <= p < q < n && #[trigger] equal_range(h, p, q) implies (n - st.2 <= p || exists|
                    j: int,
                |
                    0 <= j < st.3.len() && #[trigger] covers(st.3[j], p, q)) by {
                if q == n - 1 && p < n - 1 - count0 {
                    let s = n - 1 - count0;
                    assert(h[s - 1] == h[p]);
                    assert(h[s] == h[p]);
                } else if q < n - 1 {
                    if !(n - 1 - count0 <= p) {
                        let j = choose|j: int|
                            0 <= j < acc0.len() && #[trigger] covers(acc0[j], p, q);
                        assert(covers(st.3[j], p, q));
                    }
                }
            }
        }
    }
}

/// What holds of the entries of a full scan.
pub open spec fn entries_wf(h: Seq<int>, acc: Seq<(int, int)>) -> bool {
    &&& forall|j: int| 0 <= j < acc.len() ==> is_run(h, #[trigger] acc[j])
    &&& forall|j1: int, j2: int|
        0 <= j1 < j2 < acc.len() && acc[j1].1 > 1 && acc[j2].1 > 1 ==> #[trigger] acc[j1].0
            + acc[j1].1 <= #[trigger] acc[j2].0
    &&& sum_counts(acc) == h.len()
    &&& forall|p: int, q: int|
        0 <= p < q < h.len() && #[trigger] equal_range(h, p, q) ==> exists|j: int|
            0 <= j < acc.len() && acc[j].1 > 1 && #[trigger] covers(acc[j], p, q)
}

/// The run-length scan emits entries that are runs of equal keys within the
/// keys, the entries of more than one cell are disjoint and in order, the
/// counts add up to the number of keys, and any stretch of equal keys lies
/// within a single entry of more than one cell.
pub proof fn lemma_run_entries(h: Seq<int>)
    requires
        scannable(h),
    ensures
        entries_wf(h, run_entries(h)),
{
    let n = h.len();
    let last = n - 1;
    let acc = run_entries(h);
    if n == 1 {
        let st0 = run_scan(h, 0);
        assert(st0 == (0int, 0int, 0int, Seq::<(int, int)>::empty()));
        assert(run_scan(h, 1) == run_step(st0, h[0], last));
        assert(h[0] == 0);
        assert(acc =~= seq![(0int, 1int)]);
        lemma_sum_counts_push(Seq::<(int, int)>::empty(), (0, 1));
        assert(is_run(h, acc[0]));
    } else {
        lemma_scan_inv(h, n - 1);
        let prev_st = run_scan(h, (n - 1) as nat);
        let (i0, prev0, count0, acc0) = prev_st;
        assert(run_scan(h, n as nat) == run_step(prev_st, h[n - 1], last));
        if prev0 != h[n - 1] {
            let e = (i0 - count0, count0);
            let e2 = (i0 - 1, 1int);
            assert(acc == acc0.push(e).push(e2));
            lemma_sum_counts_push(acc0, e);
            lemma_sum_counts_push(acc0.push(e), e2);
            assert(is_run(h, e));
            assert(is_run(h, e2));
            assert forall|j: int| 0 <= j < acc.len() implies is_run(h, #[trigger] acc[j]) by {
                if j < acc0.len() {
                    assert(acc[j] == acc0[j]);
                }
            }
            assert forall|j1: int, j2: int|
                0 <= j1 < j2 < acc.len() && acc[j1].1 > 1 && acc[j2].1 > 1 implies #[trigger] acc[j1].0
                + acc[j1].1 <= #[trigger] acc[j2].0 by {
                assert(acc[j1] == acc0[j1]);
                if j2 < acc0.len() {
                    assert(acc[j2] == acc0[j2]);
                }
            }
            assert forall|p: int, q: int|
                0 <= p < q < h.len() && #[trigger] equal_range(h, p, q) implies exists|j: int|
                0 <= j < acc.len() && acc[j].1 > 1 && #[trigger] covers(acc[j], p, q) by {
                if q == n - 1 {
                    assert(h[q - 1] == h[p]);
                    assert(h[q] == h[p]);
                } else if n - 1 - count0 <= p {
                    assert(acc[acc0.len() as int] == e);
                    assert(covers(acc[acc0.len() as int], p, q));
                } else {
                    let j = choose|j: int| 0 <= j < acc0.len() && #[trigger] covers(acc0[j], p, q);
                    assert(acc[j] == acc0[j]);
                    assert(covers(acc[j], p, q));
                }
            }
        } else {
            let e = (i0 - count0, count0 + 1);
            assert(acc == acc0.push(e));
            lemma_sum_counts_push(acc0, e);
            assert(is_run(h, e));
            assert forall|j: int| 0 <= j < acc.len() implies is_run(h, #[trigger] acc[j]) by {
                if j < acc0.len() {
                    assert(acc[j] == acc0[j]);
                }
            }
            assert forall|j1: int, j2: int|
                0 <= j1 < j2 < acc.len() && acc[j1].1 > 1 && acc[j2].1 > 1 implies #[trigger] acc[j1].0
                + acc[j1].1 <= #[trigger] acc[j2].0 by {
                assert(acc[j1] == acc0[j1]);
                if j2 < acc0.len() {
                    assert(acc[j2] == acc0[j2]);
                }
            }
            assert forall|p: int, q: int|
                0 <= p < q < h.len() && #[trigger] equal_range(h, p, q) implies exists|j: int|
                0 <= j < acc.len() && acc[j].1 > 1 && #[trigger] covers(acc[j], p, q) by {
                if q == n - 1 && p < n - 1 - count0 {
                    let s = n - 1 - count0;
                    assert(h[s - 1] == h[p]);
                    assert(h[s] == h[p]);
                } else if n - 1 - count0 <= p {
                    assert(acc[acc0.len() as int] == e);
                    assert(covers(acc[acc0.len() as int], p, q));
                } else {
                    let j = choose|j: int| 0 <= j < acc0.len() && #[trigger] covers(acc0[j], p, q);
                    assert(acc[j] == acc0[j]);
                    assert(covers(acc[j], p, q));
                }
            }
        }
    }
}

} // verus!
