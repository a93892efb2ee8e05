//! The walk: which entries of a depth-first listing are shown, their lines,
//! and the directory counts.

use vstd::prelude::*;
use crate::counts::DepthCounts;
use crate::render::{line_of, render_line, strings_view, summary_lines, summary_text};
use crate::rules::{keeps_subtree, Entry, TraversalConfig};

verus! {

/// Whether an entry lies below the directory that was cut off at depth `cut`.
pub open spec fn covered(cut: Option<nat>, e: Entry) -> bool {
    match cut {
        Some(c) => e.depth > c,
        None => false,
    }
}

/// After the first `n` entries of the listing: the depth of the directory whose
/// subtree is being skipped, if any.
pub open spec fn cut_after(cfg: TraversalConfig, s: Seq<Entry>, n: nat) -> Option<nat>
    decreases n,
{
    if n == 0 || n > s.len() {
        None
    } else {
        let c = cut_after(cfg, s, (n - 1) as nat);
        let e = s[n - 1];
        if covered(c, e) {
            c
        } else if !e.descends(cfg) {
            Some(e.depth as nat)
        } else {
            None
        }
    }
}

/// The walk gets to entry `i`: no directory above it was left out.
pub open spec fn reached(cfg: TraversalConfig, s: Seq<Entry>, i: int) -> bool {
    !covered(cut_after(cfg, s, i as nat), s[i])
}

/// Entry `i` is shown and counted.
pub open spec fn kept(cfg: TraversalConfig, s: Seq<Entry>, i: int) -> bool {
    reached(cfg, s, i) && s[i].shown(cfg)
}

/// The entries kept among the first `n`, in listing order.
pub open spec fn retained_upto(cfg: TraversalConfig, s: Seq<Entry>, n: nat) -> Seq<Entry>
    decreases n,
{
    if n == 0 || n > s.len() {
        Seq::empty()
    } else {
        let p = retained_upto(cfg, s, (n - 1) as nat);
        if kept(cfg, s, n - 1) {
            p.push(s[n - 1])
        } else {
            p
        }
    }
}

/// The entries kept from the whole listing, in listing order.
pub open spec fn retained(cfg: TraversalConfig, s: Seq<Entry>) -> Seq<Entry> {
    retained_upto(cfg, s, s.len())
}

/// How many of the entries are directories.
pub open spec fn dir_count(r: Seq<Entry>) -> nat
    decreases r.len(),
{
    if r.len() == 0 {
        0
    } else {
        dir_count(r.drop_last()) + if r.last().is_dir { 1nat } else { 0 }
    }
}

/// How many of the entries are directories at depth `d`.
pub open spec fn dirs_at(r: Seq<Entry>, d: nat) -> nat
    decreases r.len(),
{
    if r.len() == 0 {
        0
    } else {
        dirs_at(r.drop_last(), d) + if r.last().is_dir && r.last().depth as nat == d { 1nat } else { 0 }
    }
}

/// Entry `k` lies in the subtree of entry `i`: every entry after `i` up to `k` is deeper.
pub open spec fn in_subtree(s: Seq<Entry>, i: int, k: int) -> bool {
    forall|m: int| i < m <= k ==> #[trigger] s[m].depth > s[i].depth
}

/// The outcome of a walk: the tree lines, the directory total and the counts per depth.
pub struct TreeReport {
    pub lines: Vec<String>,
    pub total_dirs: usize,
    pub depth_counts: DepthCounts,
}

impl TreeReport {
    /// This report is the one that the listing `s` gives under `cfg`.
    pub open spec fn describes(&self, cfg: TraversalConfig, s: Seq<Entry>) -> bool {
        &&& strings_view(self.lines@) == retained(cfg, s).map_values(|e: Entry| line_of(e))
        &&& self.total_dirs == dir_count(retained(cfg, s))
        &&& self.depth_counts.wf()
        &&& self.depth_counts.total() == self.total_dirs
        &&& forall|d: nat| #[trigger] self.depth_counts.count(d) == dirs_at(retained(cfg, s), d)
    }

    /// All output: the tree lines, then the summary.
    pub open spec fn output(&self) -> Seq<Seq<char>> {
        strings_view(self.lines@) + summary_text(self.total_dirs as nat, self.depth_counts.rows_view())
    }

    /// All output lines: the tree lines, then the summary.
    pub fn output_lines(&self) -> (r: Vec<String>)
        ensures
            strings_view(r@) == self.output(),
    {
        let mut out: Vec<String> = Vec::new();
        let mut i: usize = 0;
        while i < self.lines.len()
            invariant
                i <= self.lines@.len(),
                strings_view(out@) =~= strings_view(self.lines@.take(i as int)),
            decreases self.lines@.len() - i,
        {
            let ghost prev = out@;
            out.push(self.lines[i].clone());
            assert(strings_view(out@) =~= strings_view(prev).push(self.lines@[i as int]@));
            assert(self.lines@.take(i + 1) =~= self.lines@.take(i as int).push(self.lines@[i as int]));
            i = i + 1;
        }
        assert(self.lines@.take(i as int) =~= self.lines@);
        let summary = summary_lines(self.total_dirs, &self.depth_counts);
        let mut j: usize = 0;
        let ghost head = out@;
        while j < summary.len()
            invariant
                j <= summary@.len(),
                strings_view(head) == strings_view(self.lines@),
                strings_view(out@) =~= strings_view(head) + strings_view(summary@.take(j as int)),
            decreases summary@.len() - j,
        {
            let ghost prev = out@;
            out.push(summary[j].clone());
            assert(strings_view(out@) =~= strings_view(prev).push(summary@[j as int]@));
            assert(summary@.take(j + 1) =~= summary@.take(j as int).push(summary@[j as int]));
            j = j + 1;
        }
        assert(summary@.take(j as int) =~= summary@);
        out
    }
}

/// Walks a depth-first listing (parents before children, root left out): applies
/// the three rules, skips the subtree of each entry that the first two rules leave
/// out, renders each kept entry, and counts the kept directories per depth.
pub fn render_tree(cfg: &TraversalConfig, listing: &Vec<Entry>) -> (r: TreeReport)
    ensures
        r.describes(*cfg, listing@),
{
    let ghost s = listing@;
    let mut cut: Option<usize> = None;
    let mut lines: Vec<String> = Vec::new();
    let mut total: usize = 0;
    let mut counts = DepthCounts::new();
    let mut i: usize = 0;
    while i < listing.len()
        invariant
            s == listing@,
            i <= s.len(),
            cut_after(*cfg, s, i as nat) == match cut { Some(c) => Some(c as nat), None => None::<nat> },
            strings_view(lines@) == retained_upto(*cfg, s, i as nat).map_values(|e: Entry| line_of(e)),
            total == dir_count(retained_upto(*cfg, s, i as nat)),
            counts.wf(),
            counts.total() == total,
            forall|d: nat| #[trigger] counts.count(d) == dirs_at(retained_upto(*cfg, s, i as nat), d),
            total <= lines@.len() <= i,
        decreases s.len() - i,
    {
        let e = &listing[i];
        let ghost before = retained_upto(*cfg, s, i as nat);
        let ghost prev_lines = lines@;
        let is_covered = match cut {
            Some(c) => e.depth > c,
            None => false,
        };
        if is_covered {
        } else if !keeps_subtree(cfg, &e.name, e.is_dir) {
            cut = Some(e.depth);
        } else {
            cut = None;
            if !cfg.dirs_only || e.is_dir {
                if e.is_dir {
                    total = total + 1;
                    counts.record(e.depth);
                }
                let line = render_line(e);
                lines.push(line);
                proof {
                    let after = before.push(*e);
                    assert(after.drop_last() =~= before);
                    assert(strings_view(lines@) =~= strings_view(prev_lines).push(line@));
                    assert(after.map_values(|e: Entry| line_of(e)) =~= before.map_values(
                        |e: Entry| line_of(e),
                    ).push(line_of(*e)));
                }
            }
        }
        i = i + 1;
    }
    TreeReport { lines, total_dirs: total, depth_counts: counts }
}

} // verus!
