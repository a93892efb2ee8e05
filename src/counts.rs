//! Directory counts per depth, kept as rows ordered by depth.

use vstd::prelude::*;

verus! {

/// What the rows say of one depth: the count of its row, or 0 where it has none.
pub open spec fn count_of(rows: Seq<(usize, usize)>, d: nat) -> nat
    decreases rows.len(),
{
    if rows.len() == 0 {
        0
    } else {
        let last = rows.last();
        count_of(rows.drop_last(), d) + if last.0 as nat == d { last.1 as nat } else { 0 }
    }
}

/// The sum of all counts.
pub open spec fn sum_counts(rows: Seq<(usize, usize)>) -> nat
    decreases rows.len(),
{
    if rows.len() == 0 {
        0
    } else {
        sum_counts(rows.drop_last()) + rows.last().1 as nat
    }
}

/// Depths strictly increase from row to row, and no count is zero.
pub open spec fn rows_wf(rows: Seq<(usize, usize)>) -> bool {
    &&& forall|i: int, j: int| 0 <= i < j < rows.len() ==> #[trigger] rows[i].0 < #[trigger] rows[j].0
    &&& forall|i: int| 0 <= i < rows.len() ==> #[trigger] rows[i].1 > 0
}

proof fn lemma_update(rows: Seq<(usize, usize)>, k: int, v: usize, d: nat)
    requires
        0 <= k < rows.len(),
    ensures
        count_of(rows.update(k, (rows[k].0, v)), d) + (if rows[k].0 as nat == d { rows[k].1 as int } else { 0 })
            == count_of(rows, d) + (if rows[k].0 as nat == d { v as int } else { 0 }),
        sum_counts(rows.update(k, (rows[k].0, v))) + rows[k].1 == sum_counts(rows) + v,
    decreases rows.len(),
{
    let u = rows.update(k, (rows[k].0, v));
    if k == rows.len() - 1 {
        assert(u.drop_last() =~= rows.drop_last());
    } else {
        assert(u.drop_last() =~= rows.drop_last().update(k, (rows[k].0, v)));
        lemma_update(rows.drop_last(), k, v, d);
    }
}

proof fn lemma_insert(rows: Seq<(usize, usize)>, k: int, p: (usize, usize), d: nat)
    requires
        0 <= k <= rows.len(),
    ensures
        count_of(rows.insert(k, p), d) == count_of(rows, d) + (if p.0 as nat == d { p.1 as nat } else { 0 }),
        sum_counts(rows.insert(k, p)) == sum_counts(rows) + p.1,
    decreases rows.len(),
{
    let u = rows.insert(k, p);
    if k == rows.len() {
        assert(u.drop_last() =~= rows);
    } else {
        assert(u.drop_last() =~= rows.drop_last().insert(k, p));
        lemma_insert(rows.drop_last(), k, p, d);
    }
}

proof fn lemma_row_le_sum(rows: Seq<(usize, usize)>, k: int)
    requires
        0 <= k < rows.len(),
    ensures
        rows[k].1 <= sum_counts(rows),
    decreases rows.len(),
{
    if k < rows.len() - 1 {
        lemma_row_le_sum(rows.drop_last(), k);
    }
}

/// A depth with a nonzero count has a row; in well-formed rows, that row holds the count.
pub proof fn lemma_count_of_row(rows: Seq<(usize, usize)>, d: nat)
    requires
        rows_wf(rows),
    ensures
        count_of(rows, d) > 0 ==> exists|i: int| 0 <= i < rows.len() && rows[i].0 as nat == d,
        forall|i: int| 0 <= i < rows.len() && rows[i].0 as nat == d ==> count_of(rows, d) == rows[i].1,
    decreases rows.len(),
{
    if rows.len() > 0 {
        let pre = rows.drop_last();
        assert(rows_wf(pre)) by {
            assert forall|i: int, j: int| 0 <= i < j < pre.len() implies #[trigger] pre[i].0 < #[trigger] pre[j].0 by {
                assert(rows[i].0 < rows[j].0);
            }
            assert forall|i: int| 0 <= i < pre.len() implies #[trigger] pre[i].1 > 0 by {
                assert(rows[i].1 > 0);
            }
        }
        lemma_count_of_row(pre, d);
        let n = rows.len() - 1;
        if rows[n].0 as nat == d {
            // no earlier row has this depth
            if count_of(pre, d) > 0 {
                let i = choose|i: int| 0 <= i < pre.len() && pre[i].0 as nat == d;
                assert(rows[i].0 < rows[n].0);
            }
        }
        if count_of(rows, d) > 0 && count_of(pre, d) > 0 {
            let i = choose|i: int| 0 <= i < pre.len() && pre[i].0 as nat == d;
            assert(rows[i].0 as nat == d);
        }
        assert forall|i: int| 0 <= i < rows.len() && rows[i].0 as nat == d implies count_of(rows, d) == rows[i].1 by {
            if i < n {
                assert(pre[i] == rows[i]);
                assert(rows[i].0 < rows[n].0);
            } else if count_of(pre, d) > 0 {
                let j = choose|j: int| 0 <= j < pre.len() && pre[j].0 as nat == d;
                assert(rows[j].0 < rows[n].0);
            }
        }
    }
}

proof fn lemma_wf_drop_last(rows: Seq<(usize, usize)>)
    requires
        rows_wf(rows),
        rows.len() > 0,
    ensures
        rows_wf(rows.drop_last()),
{
    let pre = rows.drop_last();
    assert forall|i: int, j: int| 0 <= i < j < pre.len() implies #[trigger] pre[i].0 < #[trigger] pre[j].0 by {
        assert(rows[i].0 < rows[j].0);
    }
    assert forall|i: int| 0 <= i < pre.len() implies #[trigger] pre[i].1 > 0 by {
        assert(rows[i].1 > 0);
    }
}

proof fn lemma_depth_at_most_last(rows: Seq<(usize, usize)>, d: nat)
    requires
        rows_wf(rows),
        count_of(rows, d) > 0,
    ensures
        rows.len() > 0,
        d <= rows.last().0,
{
    lemma_count_of_row(rows, d);
    let i = choose|i: int| 0 <= i < rows.len() && rows[i].0 as nat == d;
    if i < rows.len() - 1 {
        assert(rows[i].0 < rows[rows.len() - 1].0);
    }
}

/// Well-formed rows are determined by the count they give each depth.
pub proof fn lemma_rows_determined(a: Seq<(usize, usize)>, b: Seq<(usize, usize)>)
    requires
        rows_wf(a),
        rows_wf(b),
        forall|d: nat| #[trigger] count_of(a, d) == count_of(b, d),
    ensures
        a == b,
    decreases a.len() + b.len(),
{
    if a.len() == 0 && b.len() == 0 {
        assert(a =~= b);
    } else if a.len() == 0 {
        lemma_count_of_row(b, b[0].0 as nat);
        assert(count_of(a, b[0].0 as nat) == 0);
    } else if b.len() == 0 {
        lemma_count_of_row(a, a[0].0 as nat);
        assert(count_of(b, a[0].0 as nat) == 0);
    } else {
        let la = a.last();
        let lb = b.last();
        lemma_count_of_row(a, la.0 as nat);
        lemma_count_of_row(b, lb.0 as nat);
        assert(count_of(a, la.0 as nat) == count_of(b, la.0 as nat));
        assert(count_of(a, lb.0 as nat) == count_of(b, lb.0 as nat));
        lemma_depth_at_most_last(b, la.0 as nat);
        lemma_depth_at_most_last(a, lb.0 as nat);
        assert(la == lb);
        lemma_wf_drop_last(a);
        lemma_wf_drop_last(b);
        assert forall|d: nat| #[trigger] count_of(a.drop_last(), d) == count_of(b.drop_last(), d) by {
            assert(count_of(a, d) == count_of(b, d));
        }
        lemma_rows_determined(a.drop_last(), b.drop_last());
        assert(a =~= a.drop_last().push(la));
        assert(b =~= b.drop_last().push(lb));
    }
}

/// Directory counts per depth, one row per depth that has a directory.
///
/// The rows are a vector kept sorted by depth rather than an ordered map: the
/// summary lists them in that order, and the facts proved of them (the counts
/// sum to the total; the rows are fixed by the count of each depth) go by
/// induction over the rows. With a `BTreeMap`, the total would be a sum over a
/// map's domain, and its ordered walk is specified only through its iterator.
pub struct DepthCounts {
    rows: Vec<(usize, usize)>,
}

impl DepthCounts {
    /// The rows, as (depth, count), by increasing depth.
    pub closed spec fn rows_view(&self) -> Seq<(usize, usize)> {
        self.rows@
    }

    pub open spec fn wf(&self) -> bool {
        rows_wf(self.rows_view())
    }

    /// The count kept for one depth.
    pub open spec fn count(&self, d: nat) -> nat {
        count_of(self.rows_view(), d)
    }

    /// The sum of all counts.
    pub open spec fn total(&self) -> nat {
        sum_counts(self.rows_view())
    }

    /// No depth counted yet.
    pub fn new() -> (r: DepthCounts)
        ensures
            r.wf(),
            r.rows_view().len() == 0,
            r.total() == 0,
            forall|d: nat| r.count(d) == 0,
    {
        DepthCounts { rows: Vec::new() }
    }

    /// Counts one more directory at depth `depth`, adding its row on first sight.
    pub fn record(&mut self, depth: usize)
        requires
            old(self).wf(),
            old(self).total() < usize::MAX,
        ensures
            final(self).wf(),
            final(self).total() == old(self).total() + 1,
            forall|d: nat| #[trigger] final(self).count(d) == old(self).count(d) + if d == depth { 1nat } else { 0 },
    {
        let ghost before = self.rows@;
        let mut i: usize = 0;
        while i < self.rows.len() && self.rows[i].0 < depth
            invariant
                self.rows@ == before,
                rows_wf(before),
                i <= before.len(),
                forall|j: int| 0 <= j < i ==> #[trigger] before[j].0 < depth,
            decreases before.len() - i,
        {
            i = i + 1;
        }
        if i < self.rows.len() && self.rows[i].0 == depth {
            let c = self.rows[i].1;
            proof {
                lemma_row_le_sum(before, i as int);
            }
            self.rows.set(i, (depth, c + 1));
            proof {
                assert(self.rows@ == before.update(i as int, (before[i as int].0, (c + 1) as usize)));
                assert forall|d: nat| #[trigger] count_of(self.rows@, d) == count_of(before, d) + if d == depth { 1nat } else { 0 } by {
                    lemma_update(before, i as int, (c + 1) as usize, d);
                }
                lemma_update(before, i as int, (c + 1) as usize, 0);
            }
        } else {
            self.rows.insert(i, (depth, 1));
            proof {
                assert forall|d: nat| #[trigger] count_of(self.rows@, d) == count_of(before, d) + if d == depth { 1nat } else { 0 } by {
                    lemma_insert(before, i as int, (depth, 1), d);
                }
                lemma_insert(before, i as int, (depth, 1), 0);
                let r = self.rows@;
                assert forall|a: int, b: int| 0 <= a < b < r.len() implies #[trigger] r[a].0 < #[trigger] r[b].0 by {
                    if b < i {
                    } else if b == i {
                    } else if a < i {
                        assert(r[b] == before[b - 1]);
                    } else if a == i {
                        assert(r[b] == before[b - 1]);
                        assert(before[i as int].0 >= depth);
                        if b - 1 > i {
                            assert(before[i as int].0 < before[b - 1].0);
                        }
                    } else {
                        assert(r[a] == before[a - 1]);
                        assert(r[b] == before[b - 1]);
                    }
                }
                assert forall|a: int| 0 <= a < r.len() implies #[trigger] r[a].1 > 0 by {
                    if a > i {
                        assert(r[a] == before[a - 1]);
                    }
                }
            }
        }
    }

    /// The count for one depth, 0 where none was recorded.
    pub fn get(&self, depth: usize) -> (r: usize)
        requires
            self.wf(),
        ensures
            r == self.count(depth as nat),
    {
        let mut i: usize = 0;
        while i < self.rows.len()
            invariant
                rows_wf(self.rows@),
                i <= self.rows@.len(),
                forall|j: int| 0 <= j < i ==> #[trigger] self.rows@[j].0 != depth,
            decreases self.rows@.len() - i,
        {
            if self.rows[i].0 == depth {
                proof {
                    lemma_count_of_row(self.rows@, depth as nat);
                }
                return self.rows[i].1;
            }
            i = i + 1;
        }
        proof {
            lemma_count_of_row(self.rows@, depth as nat);
        }
        0
    }

    /// The rows, as (depth, count), by increasing depth.
    pub fn rows(&self) -> (r: &Vec<(usize, usize)>)
        ensures
            r@ == self.rows_view(),
    {
        &self.rows
    }
}

} // verus!
