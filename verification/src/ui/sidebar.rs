//! The texts of the project sidebar: the count of projects, their grouping,
//! and paths and descriptions cut to fit.
use vstd::prelude::*;
use vstd::utf8::encode_utf8;
use crate::models::ProjectInfo;
use crate::text::{
    concat2, append_str, decimal, decimal_string, byte_range_text, at_char_boundary, byte_len,
    lemma_range_valid, byte_range, lemma_encode_concat,
};

verus! {

/// Where a path longer than `max_len` bytes is cut: it keeps its first
/// `max_len / 2 - 2` bytes and its last `max_len / 2 - 2` bytes.
pub open spec fn can_shorten(s: Seq<char>, max_len: int) -> bool {
    byte_len(s) <= max_len || {
        &&& max_len >= 4
        &&& at_char_boundary(s, max_len / 2 - 2)
        &&& at_char_boundary(s, byte_len(s) - max_len / 2 + 2)
    }
}

/// A path that fits in `max_len` bytes, or its head and tail joined by "...".
pub open spec fn shortened(s: Seq<char>, max_len: int) -> Seq<char> {
    if byte_len(s) <= max_len {
        s
    } else {
        byte_range_text(s, 0, max_len / 2 - 2) + "..."@ + byte_range_text(s, byte_len(s) - max_len / 2 + 2, byte_len(s))
    }
}

/// "..." takes three bytes.
proof fn lemma_ellipsis_len()
    ensures
        byte_len("..."@) == 3,
{
    reveal_strlit("...");
    vstd::utf8::is_ascii_chars_encode_utf8("..."@);
}

/// Law: a shortened path never takes more than `max_len` bytes.
pub proof fn law_shortened_path_fits(path: Seq<char>, max_len: int)
    requires
        can_shorten(path, max_len),
    ensures
        byte_len(shortened(path, max_len)) <= max_len,
{
    let n = byte_len(path);
    if n > max_len {
        let h = max_len / 2 - 2;
        let head = byte_range_text(path, 0, h);
        let tail = byte_range_text(path, n - max_len / 2 + 2, n);
        vstd::utf8::encode_utf8_valid_utf8(path);
        vstd::utf8::is_char_boundary_start_end_of_seq(encode_utf8(path));
        lemma_range_valid(path, 0, h);
        lemma_range_valid(path, n - max_len / 2 + 2, n);
        lemma_encode_concat(head, "..."@);
        lemma_encode_concat(head + "..."@, tail);
        lemma_ellipsis_len();
    }
}

/// The path of a project cut to `max_len` bytes: if longer, its first and
/// last `max_len / 2 - 2` bytes with "..." between them.
pub fn shorten_path(path: &str, max_len: usize) -> (r: String)
    requires
        can_shorten(path@, max_len as int),
    ensures
        r@ == shortened(path@, max_len as int),
{
    broadcast use vstd::utf8::group_utf8_lib;

    let n = path.as_bytes().len();
    if n <= max_len {
        return path.to_owned();
    }
    let head = byte_range(path, 0, max_len / 2 - 2);
    let tail = byte_range(path, n - max_len / 2 + 2, n);
    let mut r = concat2(head, "...");
    append_str(&mut r, tail);
    r
}


/// Whether `head_with_ellipsis` can cut `s` at `limit` bytes.
pub open spec fn can_cut_head(s: Seq<char>, limit: int) -> bool {
    byte_len(s) <= limit || at_char_boundary(s, limit)
}

/// `s` if it fits in `limit` bytes, else its first `limit` bytes and "...".
pub open spec fn head_cut(s: Seq<char>, limit: int) -> Seq<char> {
    if byte_len(s) <= limit {
        s
    } else {
        byte_range_text(s, 0, limit) + "..."@
    }
}

/// A text cut after `limit` bytes, with "..." where it was cut (the hover
/// text of a discovered project, the description of a selected one).
pub fn head_with_ellipsis(text: &str, limit: usize) -> (r: String)
    requires
        can_cut_head(text@, limit as int),
    ensures
        r@ == head_cut(text@, limit as int),
{
    broadcast use vstd::utf8::group_utf8_lib;

    let n = text.as_bytes().len();
    if n <= limit {
        return text.to_owned();
    }
    let head = byte_range(text, 0, limit);
    concat2(head, "...")
}

/// Whether `tail_with_ellipsis` can cut `s` to `max_len` bytes.
pub open spec fn can_cut_tail(s: Seq<char>, max_len: int) -> bool {
    byte_len(s) <= max_len || (max_len >= 3 && at_char_boundary(s, byte_len(s) - (max_len - 3)))
}

/// `s` if it fits in `max_len` bytes, else "..." and its last
/// `max_len - 3` bytes.
pub open spec fn tail_cut(s: Seq<char>, max_len: int) -> Seq<char> {
    if byte_len(s) <= max_len {
        s
    } else {
        "..."@ + byte_range_text(s, byte_len(s) - (max_len - 3), byte_len(s))
    }
}

/// A text cut to its last bytes, with "..." in front where it was cut (the
/// relative path of a search result).
pub fn tail_with_ellipsis(text: &str, max_len: usize) -> (r: String)
    requires
        can_cut_tail(text@, max_len as int),
    ensures
        r@ == tail_cut(text@, max_len as int),
{
    broadcast use vstd::utf8::group_utf8_lib;

    let n = text.as_bytes().len();
    if n <= max_len {
        return text.to_owned();
    }
    let tail = byte_range(text, n - (max_len - 3), n);
    concat2("...", tail)
}

/// The number of projects that the disk scan found.
pub open spec fn auto_count(s: Seq<ProjectInfo>) -> nat
    decreases s.len(),
{
    if s.len() == 0 {
        0
    } else {
        auto_count(s.drop_last()) + if s.last().auto_discovered { 1nat } else { 0nat }
    }
}

/// The positions of the projects whose `auto_discovered` is `auto`, in order.
pub open spec fn group_positions(s: Seq<ProjectInfo>, auto: bool) -> Seq<usize>
    decreases s.len(),
{
    if s.len() == 0 {
        Seq::empty()
    } else if s.last().auto_discovered == auto {
        group_positions(s.drop_last(), auto).push((s.len() - 1) as usize)
    } else {
        group_positions(s.drop_last(), auto)
    }
}

proof fn lemma_group_lengths(s: Seq<ProjectInfo>)
    ensures
        group_positions(s, true).len() == auto_count(s),
        group_positions(s, false).len() + auto_count(s) == s.len(),
    decreases s.len(),
{
    if s.len() > 0 {
        lemma_group_lengths(s.drop_last());
    }
}

/// The projects added by hand and those that the disk scan found, each
/// group as positions in the list, in the list's order.
pub fn project_groups(projects: &Vec<ProjectInfo>) -> (groups: (Vec<usize>, Vec<usize>))
    ensures
        groups.0@ == group_positions(projects@, false),
        groups.1@ == group_positions(projects@, true),
        groups.0@.len() + groups.1@.len() == projects@.len(),
        groups.1@.len() == auto_count(projects@),
{
    let mut manual: Vec<usize> = Vec::new();
    let mut auto: Vec<usize> = Vec::new();
    let mut i: usize = 0;
    while i < projects.len()
        invariant
            i <= projects@.len(),
            manual@ == group_positions(projects@.take(i as int), false),
            auto@ == group_positions(projects@.take(i as int), true),
        decreases projects@.len() - i,
    {
        assert(projects@.take(i as int + 1).drop_last() =~= projects@.take(i as int));
        if projects[i].auto_discovered {
            auto.push(i);
        } else {
            manual.push(i);
        }
        i = i + 1;
    }
    proof {
        assert(projects@.take(i as int) =~= projects@);
        lemma_group_lengths(projects@);
    }
    (manual, auto)
}

/// The line under the sidebar's title: how many projects there are and,
/// once the disk scan has found some, how many of each kind.
pub open spec fn project_count_text_of(s: Seq<ProjectInfo>) -> Seq<char> {
    let auto = auto_count(s);
    let manual = (s.len() - auto) as nat;
    if auto > 0 {
        "共 "@ + decimal(s.len()) + " 个项目 (手动: "@ + decimal(manual) + ", 自动: "@ + decimal(auto) + ")"@
    } else {
        "共 "@ + decimal(s.len()) + " 个项目"@
    }
}

/// The line under the sidebar's title.
pub fn project_count_text(projects: &Vec<ProjectInfo>) -> (text: String)
    ensures
        text@ == project_count_text_of(projects@),
{
    let (manual, auto) = project_groups(projects);
    let mut text = concat2("共 ", decimal_string(projects.len()).as_str());
    if auto.len() > 0 {
        append_str(&mut text, " 个项目 (手动: ");
        append_str(&mut text, decimal_string(manual.len()).as_str());
        append_str(&mut text, ", 自动: ");
        append_str(&mut text, decimal_string(auto.len()).as_str());
        append_str(&mut text, ")");
    } else {
        append_str(&mut text, " 个项目");
    }
    text
}

} // verus!
