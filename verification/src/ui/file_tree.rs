//! The order in which the file tree lists the children of a directory, the
//! icon of a folder and the label of a file.
use vstd::prelude::*;
use crate::models::SortBy;
use crate::sorting::{PositionOrder, stable_sort_indices, is_sorted_permutation};
use crate::text::{
    chars_lt, compare_chars, lemma_chars_lt_asymmetric, lemma_chars_lt_irreflexive,
    lemma_chars_lt_total, lemma_chars_lt_transitive, spec_lowercase, to_lowercase, chars_of,
    seq_contains, contains_str, spec_format_size_binary, format_size_binary, concat2, append_str,
};
use crate::tree::{FileEntry, FileNode, nodes_of, total_size};

verus! {

/// `a` is strictly older than `b`; an unknown time comes before every known one.
pub open spec fn time_lt(a: Option<i64>, b: Option<i64>) -> bool {
    match (a, b) {
        (None, Some(_)) => true,
        (Some(x), Some(y)) => x < y,
        _ => false,
    }
}

/// The name by which entries are ordered: the lowercase form of their name.
pub open spec fn sort_name(n: FileNode) -> Seq<char> {
    spec_lowercase(n.name)
}

/// `a` goes strictly before `b` under `sort_by` and the direction, ties aside.
/// By name, directories come first in either direction.
pub open spec fn entry_precedes(a: FileNode, b: FileNode, sort_by: SortBy, descending: bool) -> bool {
    match sort_by {
        SortBy::Name => {
            ||| (a.is_dir && !b.is_dir)
            ||| (a.is_dir == b.is_dir && if descending {
                chars_lt(sort_name(b), sort_name(a))
            } else {
                chars_lt(sort_name(a), sort_name(b))
            })
        },
        SortBy::Size => if descending {
            total_size(b) < total_size(a)
        } else {
            total_size(a) < total_size(b)
        },
        SortBy::Modified => if descending {
            time_lt(b.last_modified, a.last_modified)
        } else {
            time_lt(a.last_modified, b.last_modified)
        },
    }
}

/// `a` and `b` have the same key under `sort_by`.
pub open spec fn entry_tied(a: FileNode, b: FileNode, sort_by: SortBy) -> bool {
    match sort_by {
        SortBy::Name => a.is_dir == b.is_dir && sort_name(a) == sort_name(b),
        SortBy::Size => total_size(a) == total_size(b),
        SortBy::Modified => a.last_modified == b.last_modified,
    }
}

/// In a stable sort of `s`, the entry at `i` goes before the one at `j`:
/// by key, and entries with equal keys keep their order.
pub open spec fn goes_before(s: Seq<FileNode>, sort_by: SortBy, descending: bool, i: int, j: int) -> bool {
    entry_precedes(s[i], s[j], sort_by, descending) || (entry_tied(s[i], s[j], sort_by) && i < j)
}

/// `p` lists every position of `s` once, in the order of a stable sort of `s`.
/// Exactly one sequence has this property.
pub open spec fn is_stable_order(s: Seq<FileNode>, sort_by: SortBy, descending: bool, p: Seq<usize>) -> bool {
    &&& p.len() == s.len()
    &&& forall|k: usize| k < s.len() ==> #[trigger] p.contains(k)
    &&& forall|a: int| 0 <= a < p.len() ==> p[a] < s.len()
    &&& forall|a: int, b: int| 0 <= a < b < p.len() ==> goes_before(s, sort_by, descending, p[a] as int, p[b] as int)
}

proof fn lemma_precedes_tied(a: FileNode, b: FileNode, sort_by: SortBy, descending: bool)
    ensures
        entry_tied(a, b, sort_by) ==> !entry_precedes(a, b, sort_by, descending),
        !entry_tied(a, b, sort_by) ==> entry_precedes(a, b, sort_by, descending) || entry_precedes(b, a, sort_by, descending),
        entry_precedes(a, b, sort_by, descending) ==> !entry_precedes(b, a, sort_by, descending),
{
    lemma_chars_lt_irreflexive(sort_name(a));
    lemma_chars_lt_total(sort_name(a), sort_name(b));
    if chars_lt(sort_name(a), sort_name(b)) {
        lemma_chars_lt_asymmetric(sort_name(a), sort_name(b));
    }
    if chars_lt(sort_name(b), sort_name(a)) {
        lemma_chars_lt_asymmetric(sort_name(b), sort_name(a));
    }
}

proof fn lemma_precedes_chain(a: FileNode, b: FileNode, c: FileNode, sort_by: SortBy, descending: bool)
    ensures
        entry_precedes(a, b, sort_by, descending) && entry_precedes(b, c, sort_by, descending)
            ==> entry_precedes(a, c, sort_by, descending),
        entry_precedes(a, b, sort_by, descending) && entry_tied(b, c, sort_by)
            ==> entry_precedes(a, c, sort_by, descending),
        entry_tied(a, b, sort_by) && entry_precedes(b, c, sort_by, descending)
            ==> entry_precedes(a, c, sort_by, descending),
{
    let (na, nb, nc) = (sort_name(a), sort_name(b), sort_name(c));
    if chars_lt(na, nb) && chars_lt(nb, nc) {
        lemma_chars_lt_transitive(na, nb, nc);
    }
    if chars_lt(nc, nb) && chars_lt(nb, na) {
        lemma_chars_lt_transitive(nc, nb, na);
    }
}

proof fn lemma_goes_before_order(s: Seq<FileNode>, sort_by: SortBy, descending: bool)
    ensures
        forall|i: int| 0 <= i < s.len() ==> !#[trigger] goes_before(s, sort_by, descending, i, i),
        forall|i: int, j: int, k: int|
            0 <= i < s.len() && 0 <= j < s.len() && 0 <= k < s.len()
            && #[trigger] goes_before(s, sort_by, descending, i, j)
            && #[trigger] goes_before(s, sort_by, descending, j, k)
            ==> goes_before(s, sort_by, descending, i, k),
        forall|i: int, j: int| 0 <= i < s.len() && 0 <= j < s.len() && i != j
            ==> #[trigger] goes_before(s, sort_by, descending, i, j) || goes_before(s, sort_by, descending, j, i),
{
    assert forall|i: int| 0 <= i < s.len() implies !#[trigger] goes_before(s, sort_by, descending, i, i) by {
        lemma_precedes_tied(s[i], s[i], sort_by, descending);
    }
    assert forall|i: int, j: int, k: int|
        0 <= i < s.len() && 0 <= j < s.len() && 0 <= k < s.len()
        && #[trigger] goes_before(s, sort_by, descending, i, j)
        && #[trigger] goes_before(s, sort_by, descending, j, k)
        implies goes_before(s, sort_by, descending, i, k) by {
        lemma_precedes_chain(s[i], s[j], s[k], sort_by, descending);
        lemma_precedes_tied(s[i], s[k], sort_by, descending);
    }
    assert forall|i: int, j: int| 0 <= i < s.len() && 0 <= j < s.len() && i != j
        implies #[trigger] goes_before(s, sort_by, descending, i, j) || goes_before(s, sort_by, descending, j, i) by {
        lemma_precedes_tied(s[i], s[j], sort_by, descending);
        lemma_precedes_tied(s[j], s[i], sort_by, descending);
    }
}

proof fn lemma_stable_prefix_equal(
    s: Seq<FileNode>,
    sort_by: SortBy,
    descending: bool,
    p: Seq<usize>,
    q: Seq<usize>,
    k: int,
)
    requires
        is_stable_order(s, sort_by, descending, p),
        is_stable_order(s, sort_by, descending, q),
        0 <= k <= p.len(),
    ensures
        forall|i: int| 0 <= i < k ==> p[i] == q[i],
    decreases k,
{
    if k > 0 {
        lemma_stable_prefix_equal(s, sort_by, descending, p, q, k - 1);
        lemma_goes_before_order(s, sort_by, descending);
        let a = k - 1;
        if p[a] != q[a] {
            assert(q.contains(p[a]));
            let b = choose|b: int| 0 <= b < q.len() && q[b] == p[a];
            assert(p.contains(q[a]));
            let c = choose|c: int| 0 <= c < p.len() && p[c] == q[a];
            if b < a {
                assert(goes_before(s, sort_by, descending, p[b] as int, p[a] as int));
            }
            if c < a {
                assert(goes_before(s, sort_by, descending, q[c] as int, q[a] as int));
            }
            assert(goes_before(s, sort_by, descending, q[a] as int, q[b] as int));
            assert(goes_before(s, sort_by, descending, p[a] as int, p[c] as int));
        }
    }
}

/// Law: the order of a stable sort is unique: two sequences that both list
/// the positions of `s` in the order of a stable sort are the same.
pub proof fn law_stable_order_unique(
    s: Seq<FileNode>,
    sort_by: SortBy,
    descending: bool,
    p: Seq<usize>,
    q: Seq<usize>,
)
    requires
        is_stable_order(s, sort_by, descending, p),
        is_stable_order(s, sort_by, descending, q),
    ensures
        p == q,
{
    lemma_stable_prefix_equal(s, sort_by, descending, p, q, p.len() as int);
    assert(p =~= q);
}

/// What the order of one entry is computed from.
struct EntryKey {
    is_dir: bool,
    /// The characters of the lowercase name (by name only).
    name: Vec<char>,
    /// The total size (by size only).
    size: u64,
    modified: Option<i64>,
}

/// The key of an entry, as the order by `sort_by` reads it.
spec fn key_matches(k: EntryKey, n: FileNode, sort_by: SortBy) -> bool {
    &&& k.is_dir == n.is_dir
    &&& k.modified == n.last_modified
    &&& sort_by == SortBy::Name ==> k.name@ == sort_name(n)
    &&& sort_by == SortBy::Size ==> k.size == total_size(n)
}

/// The stable order of some entries, read from their keys.
struct EntryOrder {
    keys: Vec<EntryKey>,
    sort_by: SortBy,
    descending: bool,
    nodes: Ghost<Seq<FileNode>>,
}

impl EntryOrder {
    #[verifier::type_invariant]
    spec fn keys_match(&self) -> bool {
        &&& self.keys@.len() == self.nodes@.len()
        &&& forall|i: int| 0 <= i < self.keys@.len() ==> key_matches(#[trigger] self.keys@[i], self.nodes@[i], self.sort_by)
    }
}

/// Three-way comparison of two modification times, unknown first.
fn compare_times(a: Option<i64>, b: Option<i64>) -> (r: i8)
    ensures
        (r < 0) == time_lt(a, b),
        (r == 0) == (a == b),
        (r > 0) == time_lt(b, a),
{
    match (a, b) {
        (None, None) => 0,
        (None, Some(_)) => -1,
        (Some(_), None) => 1,
        (Some(x), Some(y)) => if x < y {
            -1
        } else if x == y {
            0
        } else {
            1
        },
    }
}

impl PositionOrder for EntryOrder {
    closed spec fn spec_len(&self) -> nat {
        self.nodes@.len()
    }

    closed spec fn before(&self, i: int, j: int) -> bool {
        goes_before(self.nodes@, self.sort_by, self.descending, i, j)
    }

    proof fn lemma_irreflexive(&self, i: int) {
        lemma_goes_before_order(self.nodes@, self.sort_by, self.descending);
    }

    proof fn lemma_transitive(&self, i: int, j: int, k: int) {
        lemma_goes_before_order(self.nodes@, self.sort_by, self.descending);
    }

    proof fn lemma_total(&self, i: int, j: int) {
        lemma_goes_before_order(self.nodes@, self.sort_by, self.descending);
    }

    fn count(&self) -> (n: usize) {
        proof {
            use_type_invariant(self);
        }
        self.keys.len()
    }

    fn is_before(&self, i: usize, j: usize) -> (r: bool) {
        proof {
            use_type_invariant(self);
        }
        let a = &self.keys[i];
        let b = &self.keys[j];
        let ghost (na, nb) = (self.nodes@[i as int], self.nodes@[j as int]);
        assert(key_matches(self.keys@[i as int], na, self.sort_by));
        assert(key_matches(self.keys@[j as int], nb, self.sort_by));
        proof {
            lemma_precedes_tied(na, nb, self.sort_by, self.descending);
        }
        let c: i8 = match self.sort_by {
            SortBy::Name => {
                if a.is_dir != b.is_dir {
                    return a.is_dir;
                }
                compare_chars(&a.name, &b.name)
            },
            SortBy::Size => if a.size < b.size {
                -1
            } else if a.size == b.size {
                0
            } else {
                1
            },
            SortBy::Modified => compare_times(a.modified, b.modified),
        };
        if c == 0 {
            i < j
        } else if self.descending {
            c > 0
        } else {
            c < 0
        }
    }
}

/// The positions of `entries` in the order in which the file tree lists
/// them: a stable sort by name (directories first), by total size or by
/// modification time, ascending or descending.
pub fn sorted_order(entries: &Vec<FileEntry>, sort_by: SortBy, descending: bool) -> (p: Vec<usize>)
    requires
        sort_by == SortBy::Size ==> forall|i: int| 0 <= i < entries@.len() ==> total_size(#[trigger] entries@[i]@) <= u64::MAX,
    ensures
        is_stable_order(nodes_of(entries@), sort_by, descending, p@),
{
    let ghost nodes = nodes_of(entries@);
    let mut keys: Vec<EntryKey> = Vec::new();
    let mut i: usize = 0;
    while i < entries.len()
        invariant
            i <= entries@.len() == nodes.len(),
            nodes == nodes_of(entries@),
            keys@.len() == i,
            sort_by == SortBy::Size ==> forall|j: int| 0 <= j < entries@.len() ==> total_size(#[trigger] entries@[j]@) <= u64::MAX,
            forall|j: int| 0 <= j < i ==> key_matches(#[trigger] keys@[j], nodes[j], sort_by),
        decreases entries@.len() - i,
    {
        let e = &entries[i];
        assert(nodes[i as int] == e@);
        let name = if sort_by == SortBy::Name {
            let lower = to_lowercase(e.name.as_str());
            chars_of(lower.as_str())
        } else {
            Vec::new()
        };
        let size = if sort_by == SortBy::Size {
            e.total_size()
        } else {
            0
        };
        keys.push(EntryKey { is_dir: e.is_dir, name, size, modified: e.last_modified });
        i = i + 1;
    }
    let order = EntryOrder { keys, sort_by, descending, nodes: Ghost(nodes) };
    let p = stable_sort_indices(&order);
    proof {
        assert(is_sorted_permutation(&order, p@));
        assert forall|a: int, b: int| 0 <= a < b < p@.len() implies goes_before(nodes, sort_by, descending, p@[a] as int, p@[b] as int) by {
            assert(order.before(p@[a] as int, p@[b] as int));
        }
    }
    p
}


/// Puts `entries` in the order in which the file tree lists them (see
/// `sorted_order`): the entry at each position is the one that the stable
/// sort places there.
pub fn sort_entries(entries: &mut Vec<FileEntry>, sort_by: SortBy, descending: bool)
    requires
        sort_by == SortBy::Size ==> forall|i: int| 0 <= i < old(entries)@.len() ==> total_size(#[trigger] old(entries)@[i]@) <= u64::MAX,
    ensures
        exists|p: Seq<usize>| #[trigger] is_stable_order(nodes_of(old(entries)@), sort_by, descending, p)
            && final(entries)@.len() == p.len()
            && forall|k: int| 0 <= k < p.len() ==> final(entries)@[k] == old(entries)@[p[k] as int],
{
    let p = sorted_order(entries, sort_by, descending);
    let ghost orig = entries@;
    let n = entries.len();
    proof {
        lemma_goes_before_order(nodes_of(orig), sort_by, descending);
        assert forall|a: int, b: int| 0 <= a < n && 0 <= b < n && a != b implies p@[a] != p@[b] by {
            if a < b {
                assert(goes_before(nodes_of(orig), sort_by, descending, p@[a] as int, p@[b] as int));
            } else {
                assert(goes_before(nodes_of(orig), sort_by, descending, p@[b] as int, p@[a] as int));
            }
        }
    }
    let mut slots: Vec<Option<FileEntry>> = Vec::new();
    while entries.len() > 0
        invariant
            n == orig.len(),
            entries@.len() + slots@.len() == n,
            entries@ == orig.take(entries@.len() as int),
            forall|j: int| 0 <= j < slots@.len() ==> slots@[j] == Some(orig[n - 1 - j]),
        decreases entries@.len(),
    {
        let e = entries.pop().unwrap();
        assert(entries@ =~= orig.take(entries@.len() as int));
        slots.push(Some(e));
    }
    let mut k: usize = 0;
    while k < n
        invariant
            k <= n == p@.len() == slots@.len() == orig.len(),
            entries@.len() == k,
            forall|a: int| 0 <= a < n ==> p@[a] < n,
            forall|a: int, b: int| 0 <= a < n && 0 <= b < n && a != b ==> p@[a] != p@[b],
            forall|a: int| 0 <= a < k ==> entries@[a] == orig[p@[a] as int],
            forall|j: int| 0 <= j < n && #[trigger] slots@[j] is Some ==> slots@[j] == Some(orig[n - 1 - j]),
            forall|j: int| 0 <= j < n && #[trigger] slots@[j] is None ==> exists|a: int| 0 <= a < k && p@[a] == n - 1 - j,
        decreases n - k,
    {
        let idx = n - 1 - p[k];
        proof {
            if slots@[idx as int] is None {
                let a = choose|a: int| 0 <= a < k && p@[a] == n - 1 - idx;
                assert(p@[a] == p@[k as int]);
            }
        }
        let mut taken: Option<FileEntry> = None;
        let ghost before = slots@;
        std::mem::swap(&mut taken, &mut slots[idx]);
        assert(slots@ == before.update(idx as int, None));
        entries.push(taken.unwrap());
        proof {
            assert forall|j: int| 0 <= j < n && #[trigger] slots@[j] is None implies exists|a: int| 0 <= a < k + 1 && p@[a] == n - 1 - j by {
                if j == idx {
                    assert(p@[k as int] == n - 1 - j);
                } else {
                    assert(before[j] is None);
                    let a = choose|a: int| 0 <= a < k && p@[a] == n - 1 - j;
                    assert(0 <= a < k + 1 && p@[a] == n - 1 - j);
                }
            }
        }
        k = k + 1;
    }
    assert(is_stable_order(nodes_of(orig), sort_by, descending, p@));
}


/// The icon of a folder, from the words in its lowercase name.
pub open spec fn folder_icon_of(lower: Seq<char>) -> Seq<char> {
    if seq_contains(lower, "src"@) || seq_contains(lower, "source"@) {
        "[src]"@
    } else if seq_contains(lower, "test"@) || seq_contains(lower, "spec"@) {
        "[tst]"@
    } else if seq_contains(lower, "doc"@) || seq_contains(lower, "docs"@) {
        "[doc]"@
    } else if seq_contains(lower, "asset"@) || seq_contains(lower, "static"@) || seq_contains(lower, "public"@) {
        "[res]"@
    } else if seq_contains(lower, "build"@) || seq_contains(lower, "dist"@) || seq_contains(lower, "target"@) {
        "[bld]"@
    } else if seq_contains(lower, "config"@) || seq_contains(lower, ".git"@) {
        "[cfg]"@
    } else if seq_contains(lower, "node_modules"@) {
        "[pkg]"@
    } else {
        "[dir]"@
    }
}

/// The icon shown before a folder's name.
pub fn folder_icon(entry: &FileEntry) -> (icon: &'static str)
    ensures
        icon@ == folder_icon_of(spec_lowercase(entry.name@)),
{
    let lower = to_lowercase(entry.name.as_str());
    let name = lower.as_str();
    if contains_str(name, "src") || contains_str(name, "source") {
        "[src]"
    } else if contains_str(name, "test") || contains_str(name, "spec") {
        "[tst]"
    } else if contains_str(name, "doc") || contains_str(name, "docs") {
        "[doc]"
    } else if contains_str(name, "asset") || contains_str(name, "static") || contains_str(name, "public") {
        "[res]"
    } else if contains_str(name, "build") || contains_str(name, "dist") || contains_str(name, "target") {
        "[bld]"
    } else if contains_str(name, "config") || contains_str(name, ".git") {
        "[cfg]"
    } else if contains_str(name, "node_modules") {
        "[pkg]"
    } else {
        "[dir]"
    }
}

/// The label of a file in the tree: its name, and its size after two
/// spaces in brackets where the size is not zero.
pub open spec fn file_label_of(name: Seq<char>, size: u64) -> Seq<char> {
    let size_text = if size > 0 { spec_format_size_binary(size) } else { Seq::empty() };
    if size_text.len() == 0 {
        name
    } else {
        name + "  ("@ + size_text + ")"@
    }
}

/// The label of a file in the tree.
pub fn file_label(name: &str, size: u64) -> (label: String)
    ensures
        label@ == file_label_of(name@, size),
{
    let size_text = if size > 0 { format_size_binary(size) } else { String::new() };
    if size_text.as_str().is_empty() {
        name.to_owned()
    } else {
        let mut label = concat2(name, "  (");
        append_str(&mut label, size_text.as_str());
        append_str(&mut label, ")");
        assert(label@ =~= name@ + "  ("@ + size_text@ + ")"@);
        label
    }
}

} // verus!
