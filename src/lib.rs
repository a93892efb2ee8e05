//! Renders a directory listing as a text tree and counts the directories per depth.
//!
//! The directory walk itself is left to the caller: it hands over the entries it
//! visited, in depth-first order, and this library decides which of them are shown,
//! how each line reads, and what the closing summary says.

pub mod counts;
pub mod laws;
pub mod render;
pub mod rules;
pub mod walk;

pub use counts::DepthCounts;
pub use render::{decimal_string, is_last_sibling, render_line, render_row, summary_lines};
pub use rules::{filter_hidden, is_excluded_name, keeps_subtree, starts_with_dot, Entry, TraversalConfig};
pub use walk::{render_tree, TreeReport};
