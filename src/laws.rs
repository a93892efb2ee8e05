//! Properties of every walk, stated over the listing and proved.

use vstd::prelude::*;
use crate::counts::{count_of, lemma_count_of_row, lemma_rows_determined, sum_counts};
use crate::rules::{descends, passes_dirs_only_rule, excluded_name, is_hidden_name, Entry, TraversalConfig};
use crate::walk::{covered, cut_after, dir_count, dirs_at, in_subtree, kept, retained, retained_upto, TreeReport};

verus! {

/// Every kept entry passes all three rules.
pub proof fn lemma_retained_shown(cfg: TraversalConfig, s: Seq<Entry>, n: nat)
    ensures
        forall|j: int| 0 <= j < retained_upto(cfg, s, n).len() ==> {
            let e = #[trigger] retained_upto(cfg, s, n)[j];
            descends(cfg, e.name@, e.is_dir) && passes_dirs_only_rule(cfg, e.is_dir)
        },
    decreases n,
{
    if n > 0 && n <= s.len() {
        lemma_retained_shown(cfg, s, (n - 1) as nat);
        let p = retained_upto(cfg, s, (n - 1) as nat);
        let r = retained_upto(cfg, s, n);
        assert forall|j: int| 0 <= j < r.len() implies {
            let e = #[trigger] r[j];
            descends(cfg, e.name@, e.is_dir) && passes_dirs_only_rule(cfg, e.is_dir)
        } by {
            if j < p.len() {
                assert(r[j] == p[j]);
            } else {
                assert(kept(cfg, s, n - 1));
                assert(r[j] == s[n - 1]);
            }
        }
    }
}

proof fn lemma_all_dirs(r: Seq<Entry>)
    requires
        forall|j: int| 0 <= j < r.len() ==> #[trigger] r[j].is_dir,
    ensures
        dir_count(r) == r.len(),
    decreases r.len(),
{
    if r.len() > 0 {
        lemma_all_dirs(r.drop_last());
    }
}

/// The directory total equals the sum of the counts per depth, and equals the number
/// of shown entries that are directories.
pub proof fn lemma_totals_agree(report: TreeReport, cfg: TraversalConfig, s: Seq<Entry>)
    requires
        report.describes(cfg, s),
    ensures
        report.total_dirs == sum_counts(report.depth_counts.rows_view()),
        report.total_dirs == dir_count(retained(cfg, s)),
{
}

/// With directories only, every shown entry is a directory, so every shown entry is
/// counted and no file adds to any count.
pub proof fn lemma_dirs_only(cfg: TraversalConfig, s: Seq<Entry>)
    requires
        cfg.dirs_only,
    ensures
        forall|j: int| 0 <= j < retained(cfg, s).len() ==> #[trigger] retained(cfg, s)[j].is_dir,
        dir_count(retained(cfg, s)) == retained(cfg, s).len(),
{
    lemma_retained_shown(cfg, s, s.len());
    lemma_all_dirs(retained(cfg, s));
}

/// Nothing in the subtree of an entry that the first two rules leave out is shown.
pub proof fn lemma_pruned_subtree(cfg: TraversalConfig, s: Seq<Entry>, i: int, k: int)
    requires
        0 <= i < k < s.len(),
        !s[i].descends(cfg),
        in_subtree(s, i, k),
    ensures
        !kept(cfg, s, k),
{
    // the cut in force before k lies at or above the depth of entry i
    lemma_cut_at_or_above(cfg, s, i, k);
}

proof fn lemma_cut_at_or_above(cfg: TraversalConfig, s: Seq<Entry>, i: int, m: int)
    requires
        0 <= i < m < s.len(),
        !s[i].descends(cfg),
        in_subtree(s, i, m),
    ensures
        cut_after(cfg, s, m as nat) is Some,
        cut_after(cfg, s, m as nat).unwrap() <= s[i].depth,
    decreases m - i,
{
    if m - 1 > i {
        lemma_cut_at_or_above(cfg, s, i, m - 1);
        assert(s[m - 1].depth > s[i].depth);
    }
}

/// Hidden entries left out: no shown name starts with a dot, and nothing below a
/// dot-named entry is shown.
pub proof fn lemma_hidden_left_out(cfg: TraversalConfig, s: Seq<Entry>)
    requires
        !cfg.show_hidden,
    ensures
        forall|j: int| 0 <= j < retained(cfg, s).len() ==> !is_hidden_name(
            (#[trigger] retained(cfg, s)[j]).name@,
        ),
        forall|i: int, k: int| 0 <= i < k < s.len() && is_hidden_name(s[i].name@)
            && #[trigger] in_subtree(s, i, k) ==> !kept(cfg, s, k),
{
    lemma_retained_shown(cfg, s, s.len());
    assert forall|i: int, k: int| 0 <= i < k < s.len() && is_hidden_name(s[i].name@)
        && #[trigger] in_subtree(s, i, k) implies !kept(cfg, s, k) by {
        lemma_pruned_subtree(cfg, s, i, k);
    }
}

/// With the exclusion preset: no shown directory has one of its names, and nothing
/// below such a directory is shown.
pub proof fn lemma_preset_left_out(cfg: TraversalConfig, s: Seq<Entry>)
    requires
        cfg.angular,
    ensures
        forall|j: int| 0 <= j < retained(cfg, s).len() && (#[trigger] retained(cfg, s)[j]).is_dir ==> !excluded_name(retained(cfg, s)[j].name@),
        forall|i: int, k: int| 0 <= i < k < s.len() && s[i].is_dir && excluded_name(s[i].name@)
            && #[trigger] in_subtree(s, i, k) ==> !kept(cfg, s, k),
{
    lemma_retained_shown(cfg, s, s.len());
    assert forall|i: int, k: int| 0 <= i < k < s.len() && s[i].is_dir && excluded_name(s[i].name@)
        && #[trigger] in_subtree(s, i, k) implies !kept(cfg, s, k) by {
        lemma_pruned_subtree(cfg, s, i, k);
    }
}

/// The summary lists depths in strictly increasing order, each with the number of
/// shown directories at that depth, and every depth that has a shown directory.
pub proof fn lemma_summary_depths(report: TreeReport, cfg: TraversalConfig, s: Seq<Entry>)
    requires
        report.describes(cfg, s),
    ensures
        forall|i: int, j: int| 0 <= i < j < report.depth_counts.rows_view().len()
            ==> #[trigger] report.depth_counts.rows_view()[i].0 < #[trigger] report.depth_counts.rows_view()[j].0,
        forall|i: int| 0 <= i < report.depth_counts.rows_view().len() ==> {
            let row = #[trigger] report.depth_counts.rows_view()[i];
            row.1 == dirs_at(retained(cfg, s), row.0 as nat) && row.1 > 0
        },
        forall|d: nat| #[trigger] dirs_at(retained(cfg, s), d) > 0 ==> exists|i: int|
            0 <= i < report.depth_counts.rows_view().len() && report.depth_counts.rows_view()[i].0 as nat == d,
{
    let rows = report.depth_counts.rows_view();
    assert forall|i: int| 0 <= i < rows.len() implies {
        let row = #[trigger] rows[i];
        row.1 == dirs_at(retained(cfg, s), row.0 as nat) && row.1 > 0
    } by {
        lemma_count_of_row(rows, rows[i].0 as nat);
        assert(report.depth_counts.count(rows[i].0 as nat) == dirs_at(retained(cfg, s), rows[i].0 as nat));
    }
    assert forall|d: nat| #[trigger] dirs_at(retained(cfg, s), d) > 0 implies exists|i: int|
        0 <= i < rows.len() && rows[i].0 as nat == d by {
        lemma_count_of_row(rows, d);
        assert(report.depth_counts.count(d) == dirs_at(retained(cfg, s), d));
    }
}

/// A walk is repeatable: two reports of the same listing under the same
/// configuration have the same output, line for line.
pub proof fn lemma_output_determined(a: TreeReport, b: TreeReport, cfg: TraversalConfig, s: Seq<Entry>)
    requires
        a.describes(cfg, s),
        b.describes(cfg, s),
    ensures
        a.output() == b.output(),
{
    assert forall|d: nat| #[trigger] count_of(a.depth_counts.rows_view(), d) == count_of(b.depth_counts.rows_view(), d) by {
        assert(a.depth_counts.count(d) == b.depth_counts.count(d));
    }
    lemma_rows_determined(a.depth_counts.rows_view(), b.depth_counts.rows_view());
}

proof fn lemma_cut_source(cfg: TraversalConfig, s: Seq<Entry>, n: nat)
    requires
        n <= s.len(),
    ensures
        cut_after(cfg, s, n) is Some ==> exists|j: int|
            0 <= j < n && !s[j].descends(cfg) && s[j].depth == cut_after(cfg, s, n).unwrap()
                && forall|m: int| j < m < n ==> #[trigger] s[m].depth > s[j].depth,
    decreases n,
{
    if n > 0 {
        lemma_cut_source(cfg, s, (n - 1) as nat);
        let c = cut_after(cfg, s, (n - 1) as nat);
        if covered(c, s[n - 1]) {
            let j = choose|j: int|
                0 <= j < n - 1 && !s[j].descends(cfg) && s[j].depth == c.unwrap()
                    && forall|m: int| j < m < n - 1 ==> #[trigger] s[m].depth > s[j].depth;
            assert(forall|m: int| j < m < n ==> #[trigger] s[m].depth > s[j].depth);
        } else if !s[n - 1].descends(cfg) {
            assert(forall|m: int| n - 1 < m < n ==> #[trigger] s[m].depth > s[n - 1].depth);
        }
    }
}

/// An entry is shown exactly when it passes all three rules and every earlier entry
/// whose subtree holds it passes the first two.
pub proof fn lemma_kept_exactly(cfg: TraversalConfig, s: Seq<Entry>, k: int)
    requires
        0 <= k < s.len(),
    ensures
        kept(cfg, s, k) <==> (s[k].shown(cfg) && forall|i: int|
            0 <= i < k && #[trigger] in_subtree(s, i, k) ==> s[i].descends(cfg)),
{
    assert forall|i: int| 0 <= i < k && #[trigger] in_subtree(s, i, k) && kept(cfg, s, k) implies s[i].descends(cfg) by {
        if !s[i].descends(cfg) {
            lemma_pruned_subtree(cfg, s, i, k);
        }
    }
    if !kept(cfg, s, k) && s[k].shown(cfg) {
        lemma_cut_source(cfg, s, k as nat);
        let j = choose|j: int|
            0 <= j < k && !s[j].descends(cfg) && s[j].depth == cut_after(cfg, s, k as nat).unwrap()
                && forall|m: int| j < m < k ==> #[trigger] s[m].depth > s[j].depth;
        assert(in_subtree(s, j, k));
    }
}

} // verus!
