//! The text of a tree line and of the closing summary.

use vstd::prelude::*;
use crate::counts::DepthCounts;
use crate::rules::Entry;

verus! {

/// Indentation of an entry at depth `d`: one four-space unit per level below the first.
pub open spec fn indent(d: nat) -> Seq<char>
    decreases d,
{
    if d <= 1 {
        Seq::empty()
    } else {
        indent((d - 1) as nat) + "    "@
    }
}

/// The branch marker: the corner for the last entry of its parent's listing.
pub open spec fn branch(is_last: bool) -> Seq<char> {
    if is_last {
        "└── "@
    } else {
        "├── "@
    }
}

/// The tree line of one entry.
pub open spec fn line_of(e: Entry) -> Seq<char> {
    indent(e.depth as nat) + branch(e.is_last) + e.name@
}

pub open spec fn digit_char(d: nat) -> char {
    if d == 0 { '0' }
    else if d == 1 { '1' }
    else if d == 2 { '2' }
    else if d == 3 { '3' }
    else if d == 4 { '4' }
    else if d == 5 { '5' }
    else if d == 6 { '6' }
    else if d == 7 { '7' }
    else if d == 8 { '8' }
    else { '9' }
}

/// The decimal digits of `n`, without leading zeros.
pub open spec fn decimal(n: nat) -> Seq<char>
    decreases n,
{
    if n < 10 {
        seq![digit_char(n)]
    } else {
        decimal(n / 10).push(digit_char(n % 10))
    }
}

/// Right-aligned in a field two characters wide.
pub open spec fn pad2(s: Seq<char>) -> Seq<char> {
    if s.len() < 2 {
        " "@ + s
    } else {
        s
    }
}

/// The summary line of one depth and its directory count.
pub open spec fn row_line(depth: nat, count: nat) -> Seq<char> {
    "  深さ "@ + pad2(decimal(depth)) + ": "@ + decimal(count) + " 個"@
}

/// The closing summary: a blank line, a separator, a header, the total,
/// and one line per row of depth counts.
pub open spec fn summary_text(total: nat, rows: Seq<(usize, usize)>) -> Seq<Seq<char>> {
    seq![
        Seq::<char>::empty(),
        "――――――――――――――――――――――――――――"@,
        "【集計結果】"@,
        "全体ディレクトリ数: "@ + decimal(total),
        "階層ごとのディレクトリ数:"@,
    ] + rows.map_values(|r: (usize, usize)| row_line(r.0 as nat, r.1 as nat))
}

pub open spec fn strings_view(v: Seq<String>) -> Seq<Seq<char>> {
    v.map_values(|s: String| s@)
}

fn digit_str(d: usize) -> (r: &'static str)
    requires
        d < 10,
    ensures
        r@ == seq![digit_char(d as nat)],
{
    proof {
        reveal_strlit("0");
        reveal_strlit("1");
        reveal_strlit("2");
        reveal_strlit("3");
        reveal_strlit("4");
        reveal_strlit("5");
        reveal_strlit("6");
        reveal_strlit("7");
        reveal_strlit("8");
        reveal_strlit("9");
    }
    if d == 0 { "0" }
    else if d == 1 { "1" }
    else if d == 2 { "2" }
    else if d == 3 { "3" }
    else if d == 4 { "4" }
    else if d == 5 { "5" }
    else if d == 6 { "6" }
    else if d == 7 { "7" }
    else if d == 8 { "8" }
    else { "9" }
}

/// `n` written in decimal.
pub fn decimal_string(n: usize) -> (r: String)
    ensures
        r@ == decimal(n as nat),
    decreases n,
{
    if n < 10 {
        String::from_str(digit_str(n))
    } else {
        let mut s = decimal_string(n / 10);
        let d = digit_str(n % 10);
        s.append(d);
        assert(s@ =~= decimal((n / 10) as nat).push(digit_char((n % 10) as nat)));
        s
    }
}

/// Whether two names are the same bytes.
fn same_bytes(a: &Vec<u8>, b: &Vec<u8>) -> (r: bool)
    ensures
        r == (a@ == b@),
{
    if a.len() != b.len() {
        return false;
    }
    let mut i: usize = 0;
    while i < a.len()
        invariant
            a@.len() == b@.len(),
            i <= a@.len(),
            forall|j: int| 0 <= j < i ==> a@[j] == b@[j],
        decreases a@.len() - i,
    {
        if a[i] != b[i] {
            return false;
        }
        i = i + 1;
    }
    assert(a@ =~= b@);
    true
}

/// Whether `name` is the last name of a parent's listing, as read from the
/// file system in its own order and before any filtering. Names are compared
/// as the raw bytes that the system gave, so that names that are not valid
/// UTF-8 are told apart.
pub fn is_last_sibling(listing: &Vec<Vec<u8>>, name: &Vec<u8>) -> (r: bool)
    ensures
        r == (listing@.len() > 0 && listing@.last()@ == name@),
{
    if listing.len() == 0 {
        false
    } else {
        same_bytes(&listing[listing.len() - 1], name)
    }
}

/// The tree line of one entry: indentation, branch marker, leaf name.
pub fn render_line(e: &Entry) -> (r: String)
    ensures
        r@ == line_of(*e),
{
    let mut s = String::new();
    let mut k: usize = 1;
    while k < e.depth
        invariant
            1 <= k,
            k <= e.depth || k == 1,
            s@ == indent(k as nat),
        decreases e.depth - k,
    {
        s.append("    ");
        k = k + 1;
    }
    assert(s@ == indent(e.depth as nat));
    if e.is_last {
        s.append("└── ");
    } else {
        s.append("├── ");
    }
    s.append(e.name.as_str());
    assert(s@ =~= line_of(*e));
    s
}

/// The summary line of one depth and its count.
pub fn render_row(depth: usize, count: usize) -> (r: String)
    ensures
        r@ == row_line(depth as nat, count as nat),
{
    let mut s = String::from_str("  深さ ");
    let d = decimal_string(depth);
    if depth < 10 {
        proof {
            reveal_strlit(" ");
        }
        s.append(" ");
    }
    s.append(d.as_str());
    s.append(": ");
    let c = decimal_string(count);
    s.append(c.as_str());
    s.append(" 個");
    assert(decimal(depth as nat).len() < 2 <==> depth < 10) by {
        if depth >= 10 {
            assert(decimal(depth as nat) == decimal((depth / 10) as nat).push(digit_char((depth % 10) as nat)));
            lemma_decimal_nonempty((depth / 10) as nat);
        }
    }
    assert(s@ =~= row_line(depth as nat, count as nat));
    s
}

proof fn lemma_decimal_nonempty(n: nat)
    ensures
        decimal(n).len() >= 1,
    decreases n,
{
    if n >= 10 {
        lemma_decimal_nonempty(n / 10);
    }
}

/// The closing summary for a total and its depth counts.
pub fn summary_lines(total: usize, counts: &DepthCounts) -> (r: Vec<String>)
    ensures
        strings_view(r@) == summary_text(total as nat, counts.rows_view()),
{
    let mut out: Vec<String> = Vec::new();
    out.push(String::new());
    out.push(String::from_str("――――――――――――――――――――――――――――"));
    out.push(String::from_str("【集計結果】"));
    let mut t = String::from_str("全体ディレクトリ数: ");
    let td = decimal_string(total);
    t.append(td.as_str());
    out.push(t);
    out.push(String::from_str("階層ごとのディレクトリ数:"));
    let rows = counts.rows();
    let ghost head = seq![
        Seq::<char>::empty(),
        "――――――――――――――――――――――――――――"@,
        "【集計結果】"@,
        "全体ディレクトリ数: "@ + decimal(total as nat),
        "階層ごとのディレクトリ数:"@,
    ];
    assert(strings_view(out@) =~= head);
    let mut i: usize = 0;
    while i < rows.len()
        invariant
            i <= rows@.len(),
            strings_view(out@) =~= head + rows@.take(i as int).map_values(
                |r: (usize, usize)| row_line(r.0 as nat, r.1 as nat),
            ),
        decreases rows@.len() - i,
    {
        let (d, c) = rows[i];
        let line = render_row(d, c);
        let ghost prev = out@;
        out.push(line);
        assert(strings_view(out@) =~= strings_view(prev).push(line@));
        assert(rows@.take(i + 1) =~= rows@.take(i as int).push(rows@[i as int]));
        assert(rows@.take(i + 1).map_values(|r: (usize, usize)| row_line(r.0 as nat, r.1 as nat))
            =~= rows@.take(i as int).map_values(|r: (usize, usize)| row_line(r.0 as nat, r.1 as nat)).push(
            row_line(d as nat, c as nat)));
        i = i + 1;
    }
    assert(rows@.take(i as int) =~= rows@);
    out
}

} // verus!
