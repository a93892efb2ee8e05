//! The three filter rules and the entry they are applied to.

use vstd::prelude::*;

verus! {

/// How a walk is configured: hidden entries, directories only, and the preset
/// that leaves out the folders of a web front-end project.
#[derive(Clone, Copy, Debug, PartialEq, Eq, Structural)]
pub struct TraversalConfig {
    /// Show entries whose name starts with `.`.
    pub show_hidden: bool,
    /// Show and count directories only.
    pub dirs_only: bool,
    /// Leave out `.vscode`, `node_modules` and `.git` directories with all they hold.
    pub angular: bool,
}

/// One node met by the walk below the root.
#[derive(Clone, Debug)]
pub struct Entry {
    /// The leaf name, as it is printed (a name that is not valid UTF-8 is given
    /// with replacement characters; its first character is `.` exactly when its
    /// first byte is).
    pub name: String,
    /// Whether the node is a directory.
    pub is_dir: bool,
    /// Number of path segments from the root to the node; the root has depth 0.
    pub depth: usize,
    /// Whether the node comes last in its parent's (unfiltered) listing.
    pub is_last: bool,
}

/// A leaf name that starts with a dot.
pub open spec fn is_hidden_name(name: Seq<char>) -> bool {
    name.len() > 0 && name[0] == '.'
}

/// The directory names that the exclusion preset leaves out.
pub open spec fn excluded_name(name: Seq<char>) -> bool {
    name == ".vscode"@ || name == "node_modules"@ || name == ".git"@
}

/// First rule: a hidden name is left out (with its subtree) unless hidden entries are shown.
pub open spec fn passes_hidden_rule(show_all: bool, name: Seq<char>) -> bool {
    show_all || !is_hidden_name(name)
}

/// Second rule: with the preset on, a directory with one of its names is left out
/// with its subtree.
pub open spec fn passes_preset_rule(cfg: TraversalConfig, name: Seq<char>, is_dir: bool) -> bool {
    !(cfg.angular && is_dir && excluded_name(name))
}

/// The first two rules together: whether the walk may show and enter the node.
pub open spec fn descends(cfg: TraversalConfig, name: Seq<char>, is_dir: bool) -> bool {
    passes_hidden_rule(cfg.show_hidden, name) && passes_preset_rule(cfg, name, is_dir)
}

/// Third rule: with `dirs_only`, a node that is not a directory is not shown or counted.
pub open spec fn passes_dirs_only_rule(cfg: TraversalConfig, is_dir: bool) -> bool {
    !cfg.dirs_only || is_dir
}

impl Entry {
    pub open spec fn descends(&self, cfg: TraversalConfig) -> bool {
        descends(cfg, self.name@, self.is_dir)
    }

    /// All three rules.
    pub open spec fn shown(&self, cfg: TraversalConfig) -> bool {
        self.descends(cfg) && passes_dirs_only_rule(cfg, self.is_dir)
    }
}

/// Whether a leaf name starts with a dot.
pub fn starts_with_dot(name: &String) -> (r: bool)
    ensures
        r == is_hidden_name(name@),
{
    let s = name.as_str();
    s.unicode_len() > 0 && s.get_char(0) == '.'
}

/// Whether the hidden-name rule keeps an entry with this name.
pub fn filter_hidden(name: &String, show_all: bool) -> (r: bool)
    ensures
        r == passes_hidden_rule(show_all, name@),
{
    if show_all {
        true
    } else {
        !starts_with_dot(name)
    }
}

/// Whether a name is one of the three that the exclusion preset leaves out.
pub fn is_excluded_name(name: &String) -> (r: bool)
    ensures
        r == excluded_name(name@),
{
    let vscode = String::from_str(".vscode");
    let modules = String::from_str("node_modules");
    let git = String::from_str(".git");
    *name == vscode || *name == modules || *name == git
}

/// Whether the walk shows a node and goes on into it: the hidden-name rule,
/// then the exclusion preset.
pub fn keeps_subtree(cfg: &TraversalConfig, name: &String, is_dir: bool) -> (r: bool)
    ensures
        r == descends(*cfg, name@, is_dir),
{
    if !filter_hidden(name, cfg.show_hidden) {
        return false;
    }
    if cfg.angular && is_dir && is_excluded_name(name) {
        return false;
    }
    true
}

impl Entry {
    /// Whether this entry passes all three rules.
    pub fn is_shown(&self, cfg: &TraversalConfig) -> (r: bool)
        ensures
            r == self.shown(*cfg),
    {
        keeps_subtree(cfg, &self.name, self.is_dir) && (!cfg.dirs_only || self.is_dir)
    }
}

} // verus!
