//! Building the tree and the statistics of a scanned directory from the
//! entries that a walk of it produced.
use vstd::prelude::*;
use crate::category::{FileCategory, category_of, all_categories, category_index};
use crate::text::{chars_of, string_from_chars, spec_lowercase, to_lowercase, starts_with, str_eq, contains_str, seq_starts_with, seq_contains};
use crate::tree::{FileEntry, FileNode, insert_at, string_views, path_join, join_path, joined_paths, paths_joined, lemma_insert_paths, insert_recursive, compute_recursive_sizes, with_recursive_sizes, total_size, file_count, dir_count, lemma_insert_tally, lemma_insert_measure, tally, Measure, law_recursive_sizes_keep_tallies,
    dir_names_distinct, dir_path_exists, prefix_from, first_dir_named, lemma_insert_dir_paths, lemma_insert_distinct,
    lemma_recursive_sizes_distinct, node_at, same_entry, lemma_insert_places_entry, lemma_insert_keeps_entries,
    lemma_insert_keeps_node, lemma_recursive_sizes_keep_entries};
use crate::sorting::{PositionOrder, is_sorted_permutation, stable_sort_indices};

verus! {

// ------------------------------------------------------------------
// File names
// ------------------------------------------------------------------

/// Position of the last '.' in `s`, or -1.
pub open spec fn last_dot(s: Seq<char>) -> int
    decreases s.len(),
{
    if s.len() == 0 {
        -1
    } else if s.last() == '.' {
        s.len() - 1
    } else {
        last_dot(s.drop_last())
    }
}

/// The extension of a file name as `Path::extension` gives it (empty where it
/// gives none): what follows the last '.', provided that dot is not the
/// first character.
pub open spec fn spec_extension(name: Seq<char>) -> Seq<char> {
    let k = last_dot(name);
    if k > 0 {
        name.subrange(k + 1, name.len() as int)
    } else {
        Seq::empty()
    }
}

proof fn lemma_last_dot(s: Seq<char>, i: int)
    requires
        0 <= i <= s.len(),
        forall|j: int| i <= j < s.len() ==> s[j] != '.',
    ensures
        last_dot(s) == last_dot(s.take(i)),
    decreases s.len() - i,
{
    if i < s.len() {
        assert(s.drop_last() =~= s.take(s.len() - 1));
        lemma_last_dot(s.drop_last(), i);
        assert(s.drop_last().take(i) =~= s.take(i));
    } else {
        assert(s.take(i) =~= s);
    }
}

/// The extension of a file name (see `spec_extension`).
pub fn extension_of(name: &str) -> (r: String)
    ensures
        r@ == spec_extension(name@),
{
    let cs = chars_of(name);
    let mut i: usize = cs.len();
    while i > 0 && cs[i - 1] != '.'
        invariant
            i <= cs@.len(),
            cs@ == name@,
            forall|j: int| i <= j < cs@.len() ==> cs@[j] != '.',
        decreases i,
    {
        i = i - 1;
    }
    proof {
        lemma_last_dot(name@, i as int);
        if i > 0 {
            assert(name@.take(i as int).last() == '.');
        } else {
            assert(name@.take(0).len() == 0);
        }
    }
    if i > 1 {
        string_from_chars(&cs, i, cs.len())
    } else {
        String::new()
    }
}

impl FileEntry {
    /// The lowercase extension of the entry's name (its last path component),
    /// empty where it has none.
    pub fn extension(&self) -> (r: String)
        ensures
            r@ == spec_lowercase(spec_extension(self.name@)),
    {
        let ext = extension_of(self.name.as_str());
        to_lowercase(ext.as_str())
    }
}

/// Whether a walk descends into (and lists) an entry of this name: hidden
/// names and build output directories are left out.
pub open spec fn spec_walk_included(name: Seq<char>) -> bool {
    &&& !seq_starts_with(name, "."@)
    &&& name != "node_modules"@
    &&& name != "target"@
    &&& name != "__pycache__"@
    &&& name != ".git"@
}

/// The filter that directory walks apply to each entry's file name.
pub fn skip_hidden_and_artifact_dirs(name: &str) -> (keep: bool)
    ensures
        keep == spec_walk_included(name@),
{
    !starts_with(name, ".")
        && !str_eq(name, "node_modules")
        && !str_eq(name, "target")
        && !str_eq(name, "__pycache__")
        && !str_eq(name, ".git")
}

// ------------------------------------------------------------------
// Entries of a walk
// ------------------------------------------------------------------

/// One entry that a walk below the scanned root produced, as plain values.
pub struct RawEntry {
    pub is_dir: bool,
    /// The length that the file system reports for it.
    pub len: u64,
    /// Seconds since the Unix epoch, where known.
    pub last_modified: Option<i64>,
    /// The components of the path relative to the scanned root (the last one
    /// is the entry's own name); empty where the entry is not below the root.
    pub components: Vec<String>,
}

/// The name of an entry: the last component of its relative path.
pub open spec fn raw_name(r: RawEntry) -> Seq<char> {
    if r.components@.len() > 0 {
        r.components@.last()@
    } else {
        Seq::empty()
    }
}

/// The paths that the components `comps` name below `base`: each is the one
/// before (or `base`) joined with its component.
pub open spec fn component_paths(base: Seq<char>, comps: Seq<Seq<char>>, sep: char) -> Seq<Seq<char>>
    decreases comps.len(),
{
    if comps.len() == 0 {
        Seq::empty()
    } else {
        let prev = component_paths(base, comps.drop_last(), sep);
        prev.push(path_join(if prev.len() == 0 { base } else { prev.last() }, comps.last(), sep))
    }
}

pub proof fn lemma_component_paths(base: Seq<char>, comps: Seq<Seq<char>>, sep: char)
    ensures
        component_paths(base, comps, sep).len() == comps.len(),
        joined_paths(base, comps, component_paths(base, comps, sep), 0, sep),
    decreases comps.len(),
{
    if comps.len() > 0 {
        lemma_component_paths(base, comps.drop_last(), sep);
        let prev = component_paths(base, comps.drop_last(), sep);
        let cur = component_paths(base, comps, sep);
        assert forall|k: int| 0 <= k < comps.len() implies #[trigger] cur[k] == path_join(
            if k == 0 { base } else { cur[k - 1] },
            comps[k],
            sep,
        ) by {
            if k < comps.len() - 1 {
                assert(cur[k] == prev[k]);
                assert(comps.drop_last()[k] == comps[k]);
                if k > 0 {
                    assert(cur[k - 1] == prev[k - 1]);
                }
            } else if k > 0 {
                assert(cur[k - 1] == prev.last());
            }
        }
    }
}

/// The paths of the directories on the way to an entry and of the entry
/// itself, below `base` (see `component_paths`).
pub fn paths_of_components(base: &str, comps: &Vec<String>, sep: char) -> (paths: Vec<String>)
    ensures
        string_views(paths@) == component_paths(base@, string_views(comps@), sep),
{
    let ghost cv = string_views(comps@);
    let mut paths: Vec<String> = Vec::new();
    let mut k: usize = 0;
    while k < comps.len()
        invariant
            k <= comps@.len(),
            cv == string_views(comps@),
            paths@.len() == k,
            string_views(paths@) == component_paths(base@, cv.take(k as int), sep),
        decreases comps@.len() - k,
    {
        proof {
            assert(cv.take(k as int + 1).drop_last() =~= cv.take(k as int));
            assert(cv.take(k as int + 1).last() == comps@[k as int]@);
        }
        let ghost before = paths@;
        let p = if k == 0 {
            join_path(base, comps[k].as_str(), sep)
        } else {
            assert(string_views(paths@).last() == paths@[k - 1]@);
            join_path(paths[k - 1].as_str(), comps[k].as_str(), sep)
        };
        paths.push(p);
        proof {
            assert(string_views(paths@) =~= string_views(before).push(paths@[k as int]@));
        }
        k = k + 1;
    }
    proof {
        assert(cv.take(k as int) =~= cv);
    }
    paths
}

/// The category that the scan gives an entry: the extension of its name is
/// put in lower case and then classified (which lower-cases it once more).
pub open spec fn raw_category(r: RawEntry) -> FileCategory {
    if r.is_dir {
        FileCategory::Other
    } else {
        category_of(spec_lowercase(spec_lowercase(spec_extension(raw_name(r)))))
    }
}

/// The size that the scan records for an entry: 0 for a directory.
pub open spec fn raw_size(r: RawEntry) -> u64 {
    if r.is_dir {
        0
    } else {
        r.len
    }
}

/// The tree node that an entry becomes, below a root at `base`.
pub open spec fn raw_node(r: RawEntry, base: Seq<char>, sep: char) -> FileNode {
    FileNode {
        name: raw_name(r),
        path: component_paths(base, string_views(r.components@), sep).last(),
        is_dir: r.is_dir,
        size: raw_size(r),
        size_recursive: 0,
        category: raw_category(r),
        children: Seq::empty(),
        last_modified: r.last_modified,
    }
}

/// The tree after placing one more entry (entries with no relative path are
/// left out).
pub open spec fn insert_raw(n: FileNode, r: RawEntry, sep: char) -> FileNode {
    if r.components@.len() == 0 {
        n
    } else {
        insert_at(
            n,
            string_views(r.components@),
            component_paths(n.path, string_views(r.components@), sep),
            0,
            raw_node(r, n.path, sep),
        )
    }
}

/// The tree after placing all the entries in order.
pub open spec fn build_tree(root: FileNode, entries: Seq<RawEntry>, sep: char) -> FileNode
    decreases entries.len(),
{
    if entries.len() == 0 {
        root
    } else {
        insert_raw(build_tree(root, entries.drop_last(), sep), entries.last(), sep)
    }
}

/// Bytes in the files among the entries that have category `c`.
pub open spec fn category_bytes(entries: Seq<RawEntry>, c: FileCategory) -> nat
    decreases entries.len(),
{
    if entries.len() == 0 {
        0
    } else {
        category_bytes(entries.drop_last(), c) + if !entries.last().is_dir && raw_category(
            entries.last(),
        ) == c {
            entries.last().len as nat
        } else {
            0
        }
    }
}

/// Files among the entries that have category `c`.
pub open spec fn category_files(entries: Seq<RawEntry>, c: FileCategory) -> nat
    decreases entries.len(),
{
    if entries.len() == 0 {
        0
    } else {
        category_files(entries.drop_last(), c) + if !entries.last().is_dir && raw_category(
            entries.last(),
        ) == c {
            1nat
        } else {
            0
        }
    }
}

/// Bytes in all the files among the entries.
pub open spec fn file_bytes(entries: Seq<RawEntry>) -> nat
    decreases entries.len(),
{
    if entries.len() == 0 {
        0
    } else {
        file_bytes(entries.drop_last()) + if !entries.last().is_dir {
            entries.last().len as nat
        } else {
            0
        }
    }
}

/// Files among the entries.
pub open spec fn file_entries(entries: Seq<RawEntry>) -> nat
    decreases entries.len(),
{
    if entries.len() == 0 {
        0
    } else {
        file_entries(entries.drop_last()) + if !entries.last().is_dir {
            1nat
        } else {
            0
        }
    }
}

/// Components of all the entries' relative paths together.
pub open spec fn total_components(entries: Seq<RawEntry>) -> nat
    decreases entries.len(),
{
    if entries.len() == 0 {
        0
    } else {
        total_components(entries.drop_last()) + entries.last().components@.len()
    }
}

// ------------------------------------------------------------------
// Statistics
// ------------------------------------------------------------------

/// Size and file count of one category.
#[derive(Clone, Copy)]
pub struct CategoryStats {
    pub category: FileCategory,
    pub size: u64,
    pub count: usize,
}

/// The value of a `CategoryStats`.
pub open spec fn stats_value(s: CategoryStats) -> (FileCategory, nat, nat) {
    (s.category, s.size as nat, s.count as nat)
}

/// Among the first `k` categories of `FileCategory::all`, those that have at
/// least one file, in that order, with their bytes and files.
pub open spec fn present_stats_upto(entries: Seq<RawEntry>, k: nat) -> Seq<(FileCategory, nat, nat)>
    decreases k,
{
    if k == 0 {
        Seq::empty()
    } else {
        let prev = present_stats_upto(entries, (k - 1) as nat);
        let c = all_categories()[k - 1];
        if category_files(entries, c) > 0 {
            prev.push((c, category_bytes(entries, c), category_files(entries, c)))
        } else {
            prev
        }
    }
}

/// The categories that have at least one file, in the fixed order of
/// `FileCategory::all`, with their bytes and files.
pub open spec fn present_stats(entries: Seq<RawEntry>) -> Seq<(FileCategory, nat, nat)> {
    present_stats_upto(entries, 6)
}

/// The key by which the statistics are sorted: the size, cast to `i64`
/// (which wraps above `i64::MAX`), negated.
pub open spec fn stats_key(size: nat) -> int {
    if size < 0x8000_0000_0000_0000 {
        -(size as int)
    } else {
        0x1_0000_0000_0000_0000 - size
    }
}

/// `out` is `stats` stably sorted by `stats_key` of the sizes.
pub open spec fn is_stable_sort_by_key(
    stats: Seq<(FileCategory, nat, nat)>,
    out: Seq<(FileCategory, nat, nat)>,
) -> bool {
    &&& out.len() == stats.len()
    &&& exists|perm: Seq<int>|
        {
            &&& perm.len() == stats.len()
            &&& forall|k: int| 0 <= k < stats.len() ==> #[trigger] perm.contains(k)
            &&& forall|a: int| 0 <= a < perm.len() ==> 0 <= #[trigger] perm[a] < stats.len()
            &&& forall|a: int| 0 <= a < perm.len() ==> out[a] == stats[#[trigger] perm[a]]
            &&& forall|a: int, b: int|
                #![trigger perm[a], perm[b]]
                0 <= a < b < perm.len() ==> {
                    let ka = stats_key(stats[perm[a]].1);
                    let kb = stats_key(stats[perm[b]].1);
                    ka < kb || (ka == kb && perm[a] < perm[b])
                }
        }
}

/// The result of scanning a directory.
pub struct ScanResult {
    pub total_size: u64,
    pub file_count: usize,
    pub dir_count: usize,
    pub category_stats: Vec<CategoryStats>,
    pub root: FileEntry,
}


/// `r` is the result of scanning a root called `name` at `path`, last
/// modified at `modified`, whose walk gave `entries`: the tree holds every
/// entry at its relative path, with each directory's recursive size filled in;
/// the totals count the files among the entries; the directory count leaves
/// out the root; and the statistics list the categories that have files,
/// largest first (see `stats_key`), ties in the fixed category order.
pub open spec fn scan_result_of(
    r: ScanResult,
    name: Seq<char>,
    path: Seq<char>,
    modified: Option<i64>,
    entries: Seq<RawEntry>,
    sep: char,
) -> bool {
    &&& r.root@ == with_recursive_sizes(build_tree(root_node(name, path, modified), entries, sep))
    &&& r.total_size == file_bytes(entries)
    &&& r.file_count == file_entries(entries)
    &&& r.dir_count == dir_count(build_tree(root_node(name, path, modified), entries, sep)) - 1
    &&& is_stable_sort_by_key(
        present_stats(entries),
        r.category_stats@.map_values(|s: CategoryStats| stats_value(s)),
    )
}

/// The root of a scan before any entry is placed.
pub open spec fn root_node(name: Seq<char>, path: Seq<char>, modified: Option<i64>) -> FileNode {
    FileNode {
        name: name,
        path: path,
        is_dir: true,
        size: 0,
        size_recursive: 0,
        category: FileCategory::Other,
        children: Seq::empty(),
        last_modified: modified,
    }
}

/// Bytes in the files that are placed in the tree (those with a relative path).
pub open spec fn placed_bytes(entries: Seq<RawEntry>) -> nat
    decreases entries.len(),
{
    if entries.len() == 0 {
        0
    } else {
        placed_bytes(entries.drop_last()) + if !entries.last().is_dir
            && entries.last().components@.len() > 0 {
            entries.last().len as nat
        } else {
            0
        }
    }
}

/// Files that are placed in the tree (those with a relative path).
pub open spec fn placed_files(entries: Seq<RawEntry>) -> nat
    decreases entries.len(),
{
    if entries.len() == 0 {
        0
    } else {
        placed_files(entries.drop_last()) + if !entries.last().is_dir
            && entries.last().components@.len() > 0 {
            1nat
        } else {
            0
        }
    }
}

/// Every entry has a relative path below the root.
pub open spec fn all_entries_placed(entries: Seq<RawEntry>) -> bool {
    forall|i: int| 0 <= i < entries.len() ==> (#[trigger] entries[i]).components@.len() > 0
}

/// Building the tree adds to the root exactly the bytes and files of the
/// placed entries, and at most one directory per path component.
pub proof fn lemma_build_tree_tally(root: FileNode, entries: Seq<RawEntry>, sep: char)
    requires
        root.is_dir,
    ensures
        build_tree(root, entries, sep).is_dir,
        total_size(build_tree(root, entries, sep)) == total_size(root) + placed_bytes(entries),
        file_count(build_tree(root, entries, sep)) == file_count(root) + placed_files(entries),
        dir_count(build_tree(root, entries, sep)) <= dir_count(root) + total_components(entries),
    decreases entries.len(),
{
    if entries.len() > 0 {
        let prev = entries.drop_last();
        lemma_build_tree_tally(root, prev, sep);
        let r = entries.last();
        if r.components@.len() > 0 {
            let t = build_tree(root, prev, sep);
            let cv = string_views(r.components@);
            lemma_insert_tally(t, cv, component_paths(t.path, cv, sep), 0, raw_node(r, t.path, sep));
            assert(raw_node(r, t.path, sep).children.len() == 0);
        }
    }
}

/// Building the tree keeps the root's name and path, and gives every node
/// below it the path of its parent joined with its name.
pub proof fn lemma_build_tree_paths(root: FileNode, entries: Seq<RawEntry>, sep: char)
    requires
        paths_joined(root, sep),
    ensures
        paths_joined(build_tree(root, entries, sep), sep),
        build_tree(root, entries, sep).path == root.path,
        build_tree(root, entries, sep).name == root.name,
    decreases entries.len(),
{
    if entries.len() > 0 {
        let prev = entries.drop_last();
        lemma_build_tree_paths(root, prev, sep);
        let r = entries.last();
        if r.components@.len() > 0 {
            let t = build_tree(root, prev, sep);
            let cv = string_views(r.components@);
            lemma_component_paths(t.path, cv, sep);
            lemma_insert_paths(t, cv, component_paths(t.path, cv, sep), 0, raw_node(r, t.path, sep), sep);
        }
    }
}

/// The placed files are among all the files.
pub proof fn lemma_placed_le(entries: Seq<RawEntry>)
    ensures
        placed_bytes(entries) <= file_bytes(entries),
        placed_files(entries) <= file_entries(entries),
        all_entries_placed(entries) ==> placed_bytes(entries) == file_bytes(entries),
        all_entries_placed(entries) ==> placed_files(entries) == file_entries(entries),
    decreases entries.len(),
{
    if entries.len() > 0 {
        let prev = entries.drop_last();
        if all_entries_placed(entries) {
            assert forall|i: int| 0 <= i < prev.len() implies (#[trigger] prev[i]).components@.len() > 0 by {
                assert(prev[i] == entries[i]);
            }
            assert(entries[entries.len() - 1].components@.len() > 0);
        }
        lemma_placed_le(prev);
    }
}

/// The bytes of a prefix of the entries are at most those of all of them.
pub proof fn lemma_file_bytes_prefix(entries: Seq<RawEntry>, i: int)
    requires
        0 <= i <= entries.len(),
    ensures
        file_bytes(entries.take(i)) <= file_bytes(entries),
        file_entries(entries.take(i)) <= file_entries(entries),
        total_components(entries.take(i)) <= total_components(entries),
    decreases entries.len() - i,
{
    if i < entries.len() {
        lemma_file_bytes_prefix(entries, i + 1);
        assert(entries.take(i + 1).drop_last() =~= entries.take(i));
    } else {
        assert(entries.take(i) =~= entries);
    }
}

/// The bytes of one category are at most those of all files.
pub proof fn lemma_category_le(entries: Seq<RawEntry>, c: FileCategory)
    ensures
        category_bytes(entries, c) <= file_bytes(entries),
        category_files(entries, c) <= file_entries(entries),
        file_entries(entries) <= entries.len(),
    decreases entries.len(),
{
    if entries.len() > 0 {
        lemma_category_le(entries.drop_last(), c);
    }
}

/// Sum of a per-category quantity over the first `k` categories.
pub open spec fn sum_categories(entries: Seq<RawEntry>, k: nat, bytes: bool) -> nat
    decreases k,
{
    if k == 0 {
        0
    } else {
        sum_categories(entries, (k - 1) as nat, bytes) + if bytes {
            category_bytes(entries, all_categories()[k - 1])
        } else {
            category_files(entries, all_categories()[k - 1])
        }
    }
}

/// Every file has exactly one category, so the categories together hold all
/// the bytes and all the files.
pub proof fn lemma_sum_categories(entries: Seq<RawEntry>)
    ensures
        sum_categories(entries, 6, true) == file_bytes(entries),
        sum_categories(entries, 6, false) == file_entries(entries),
    decreases entries.len(),
{
    reveal_with_fuel(sum_categories, 7);
    if entries.len() > 0 {
        lemma_sum_categories(entries.drop_last());
        let prev = entries.drop_last();
        reveal_with_fuel(sum_categories, 7);
        assert(sum_categories(prev, 6, true) == file_bytes(prev));
    }
}

/// Position of a category in `FileCategory::all`.
fn category_pos(c: FileCategory) -> (k: usize)
    ensures
        k == category_index(c),
        k < 6,
        all_categories()[k as int] == c,
{
    match c {
        FileCategory::Code => 0,
        FileCategory::Image => 1,
        FileCategory::Video => 2,
        FileCategory::Document => 3,
        FileCategory::Archive => 4,
        FileCategory::Other => 5,
    }
}

/// The category of one entry (see `raw_category`).
pub fn entry_category(e: &RawEntry) -> (c: FileCategory)
    ensures
        c == raw_category(*e),
{
    if e.is_dir {
        FileCategory::Other
    } else {
        let name = if e.components.len() > 0 {
            e.components[e.components.len() - 1].clone()
        } else {
            String::new()
        };
        let ext = extension_of(name.as_str());
        let lower = to_lowercase(ext.as_str());
        FileCategory::from_extension(lower.as_str())
    }
}

/// The sort keys of a list of statistics, with ties broken by position.
struct StatsOrder {
    keys: Vec<i128>,
}

impl PositionOrder for StatsOrder {
    closed spec fn spec_len(&self) -> nat {
        self.keys@.len()
    }

    closed spec fn before(&self, i: int, j: int) -> bool {
        self.keys@[i] < self.keys@[j] || (self.keys@[i] == self.keys@[j] && i < j)
    }

    proof fn lemma_irreflexive(&self, i: int) {
    }

    proof fn lemma_transitive(&self, i: int, j: int, k: int) {
    }

    proof fn lemma_total(&self, i: int, j: int) {
    }

    fn count(&self) -> (n: usize) {
        self.keys.len()
    }

    fn is_before(&self, i: usize, j: usize) -> (r: bool) {
        self.keys[i] < self.keys[j] || (self.keys[i] == self.keys[j] && i < j)
    }
}

/// `stats_key` computed in `i128`.
fn stats_key_exec(size: u64) -> (k: i128)
    ensures
        k == stats_key(size as nat),
{
    if size < 0x8000_0000_0000_0000u64 {
        -(size as i128)
    } else {
        0x1_0000_0000_0000_0000i128 - (size as i128)
    }
}

/// The statistics of the present categories, stably sorted by `stats_key`.
fn sort_stats(stats: Vec<CategoryStats>) -> (out: Vec<CategoryStats>)
    ensures
        is_stable_sort_by_key(stats@.map_values(|s: CategoryStats| stats_value(s)), out@.map_values(|s: CategoryStats| stats_value(s))),
{
    let ghost sv = stats@.map_values(|s: CategoryStats| stats_value(s));
    let mut keys: Vec<i128> = Vec::new();
    let mut i: usize = 0;
    while i < stats.len()
        invariant
            i <= stats@.len(),
            keys@.len() == i,
            forall|j: int| 0 <= j < i ==> keys@[j] == stats_key(#[trigger] stats@[j].size as nat),
        decreases stats@.len() - i,
    {
        keys.push(stats_key_exec(stats[i].size));
        i = i + 1;
    }
    let order = StatsOrder { keys };
    let perm = stable_sort_indices(&order);
    let mut out: Vec<CategoryStats> = Vec::new();
    let mut a: usize = 0;
    while a < perm.len()
        invariant
            a <= perm@.len(),
            is_sorted_permutation(&order, perm@),
            order.keys@.len() == stats@.len(),
            out@.len() == a,
            forall|b: int| 0 <= b < a ==> #[trigger] out@[b] == stats@[perm@[b] as int],
        decreases perm@.len() - a,
    {
        out.push(stats[perm[a]]);
        a = a + 1;
    }
    proof {
        let ov = out@.map_values(|s: CategoryStats| stats_value(s));
        let p = perm@.map_values(|x: usize| x as int);
        assert forall|k: int| 0 <= k < sv.len() implies #[trigger] p.contains(k) by {
            assert(perm@.contains(k as usize));
            let b = choose|b: int| 0 <= b < perm@.len() && perm@[b] == k as usize;
            assert(p[b] == k);
        }
        assert forall|b: int| 0 <= b < p.len() implies ov[b] == sv[#[trigger] p[b]] by {
            assert(out@[b] == stats@[perm@[b] as int]);
        }
        assert forall|b1: int, b2: int| 0 <= b1 < b2 < p.len() implies {
            let ka = stats_key(sv[#[trigger] p[b1]].1);
            let kb = stats_key(sv[#[trigger] p[b2]].1);
            ka < kb || (ka == kb && p[b1] < p[b2])
        } by {
            assert(order.before(perm@[b1] as int, perm@[b2] as int));
        }
        assert(p.len() == sv.len());
        assert(ov.len() == sv.len());
        assert forall|b: int| 0 <= b < p.len() implies 0 <= #[trigger] p[b] < sv.len() by {}
        assert(is_stable_sort_by_key(sv, ov));
    }
    out
}

/// Builds the tree and the statistics of a scan from the entries of a walk
/// below the root, in the order of the walk.
pub fn build_scan_result(
    root_name: String,
    root_path: String,
    root_modified: Option<i64>,
    entries: Vec<RawEntry>,
    sep: char,
) -> (r: ScanResult)
    requires
        file_bytes(entries@) <= u64::MAX,
        total_components(entries@) < usize::MAX,
        forall|c: FileCategory| category_bytes(entries@, c) != 0x8000_0000_0000_0000,
        all_entries_placed(entries@),
    ensures
        scan_result_of(r, root_name@, root_path@, root_modified, entries@, sep),
        r.total_size == total_size(r.root@),
        r.file_count == file_count(r.root@),
        r.dir_count + 1 == dir_count(r.root@),
        r.root@.name == root_name@,
        r.root@.path == root_path@,
        paths_joined(r.root@, sep),
{
    let ghost root0 = root_node(root_name@, root_path@, root_modified);
    let base_path = root_path.clone();
    let mut root = FileEntry {
        name: root_name,
        path: root_path,
        is_dir: true,
        size: 0,
        size_recursive: 0,
        category: FileCategory::Other,
        children: Vec::new(),
        last_modified: root_modified,
    };
    proof {
        assert(crate::tree::nodes_of(root.children@) =~= Seq::<FileNode>::empty());
        assert(root@ =~= root0);
    }
    let mut sizes: Vec<u64> = vec![0, 0, 0, 0, 0, 0];
    let mut counts: Vec<usize> = vec![0, 0, 0, 0, 0, 0];
    let ghost es = entries@;
    let mut i: usize = 0;
    while i < entries.len()
        invariant
            i <= es.len(),
            es == entries@,
            file_bytes(es) <= u64::MAX,
            root@ == build_tree(root0, es.take(i as int), sep),
            base_path@ == root0.path,
            paths_joined(root0, sep),
            sizes@.len() == 6,
            counts@.len() == 6,
            forall|k: int| 0 <= k < 6 ==> #[trigger] sizes@[k] == category_bytes(es.take(i as int), all_categories()[k]),
            forall|k: int| 0 <= k < 6 ==> #[trigger] counts@[k] == category_files(es.take(i as int), all_categories()[k]),
        decreases es.len() - i,
    {
        let e = &entries[i];
        let c = entry_category(e);
        let k = category_pos(c);
        let ghost pre = es.take(i as int);
        let ghost post = es.take(i as int + 1);
        proof {
            assert(post.drop_last() =~= pre);
            assert(post.last() == es[i as int]);
            lemma_file_bytes_prefix(es, i as int + 1);
            lemma_category_le(post, c);
            lemma_category_le(pre, c);
        }
        if !e.is_dir {
            sizes.set(k, sizes[k] + e.len);
            counts.set(k, counts[k] + 1);
        }
        proof {
            lemma_build_tree_paths(root0, pre, sep);
        }
        if e.components.len() > 0 {
            let paths = paths_of_components(base_path.as_str(), &e.components, sep);
            let last = e.components.len() - 1;
            proof {
                lemma_component_paths(base_path@, string_views(e.components@), sep);
                assert(string_views(paths@).len() == paths@.len());
            }
            let fe = FileEntry {
                name: e.components[last].clone(),
                path: paths[last].clone(),
                is_dir: e.is_dir,
                size: if e.is_dir { 0 } else { e.len },
                size_recursive: 0,
                category: c,
                children: Vec::new(),
                last_modified: e.last_modified,
            };
            proof {
                assert(crate::tree::nodes_of(fe.children@) =~= Seq::<FileNode>::empty());
                assert(string_views(paths@)[last as int] == paths@[last as int]@);
                assert(string_views(e.components@)[last as int] == e.components@[last as int]@);
                assert(fe@ =~= raw_node(es[i as int], root@.path, sep));
            }
            insert_recursive(&mut root, &e.components, &paths, 0, fe);
        }
        proof {
            assert forall|kk: int| 0 <= kk < 6 implies #[trigger] sizes@[kk] == category_bytes(post, all_categories()[kk]) by {
                if kk != k {
                    assert(all_categories()[kk] != c);
                }
            }
            assert forall|kk: int| 0 <= kk < 6 implies #[trigger] counts@[kk] == category_files(post, all_categories()[kk]) by {
                if kk != k {
                    assert(all_categories()[kk] != c);
                }
            }
        }
        i = i + 1;
    }
    proof {
        assert(es.take(i as int) =~= es);
    }
    // statistics of the present categories, in the fixed order
    let all = FileCategory::all();
    let mut stats: Vec<CategoryStats> = Vec::new();
    let mut total_bytes: u64 = 0;
    let mut files: usize = 0;
    let mut k: usize = 0;
    proof {
        lemma_sum_categories(es);
        lemma_category_le(es, FileCategory::Code);
    }
    while k < 6
        invariant
            k <= 6,
            all@ == all_categories(),
            sizes@.len() == 6,
            counts@.len() == 6,
            forall|kk: int| 0 <= kk < 6 ==> #[trigger] sizes@[kk] == category_bytes(es, all_categories()[kk]),
            forall|kk: int| 0 <= kk < 6 ==> #[trigger] counts@[kk] == category_files(es, all_categories()[kk]),
            stats@.map_values(|s: CategoryStats| stats_value(s)) == present_stats_upto(es, k as nat),
            total_bytes == sum_categories(es, k as nat, true),
            files == sum_categories(es, k as nat, false),
            sum_categories(es, 6, true) == file_bytes(es),
            sum_categories(es, 6, false) == file_entries(es),
            file_bytes(es) <= u64::MAX,
            file_entries(es) <= es.len(),
            es.len() <= usize::MAX,
        decreases 6 - k,
    {
        proof {
            lemma_sum_prefix_le(es, k as nat + 1, 6);
        }
        if counts[k] > 0 {
            let ghost before = stats@;
            stats.push(CategoryStats { category: all[k], size: sizes[k], count: counts[k] });
            proof {
                assert(stats@.map_values(|s: CategoryStats| stats_value(s)) =~= before.map_values(|s: CategoryStats| stats_value(s)).push(
                    (all_categories()[k as int], category_bytes(es, all_categories()[k as int]), category_files(es, all_categories()[k as int])),
                ));
            }
        }
        total_bytes = total_bytes + sizes[k];
        files = files + counts[k];
        k = k + 1;
    }
    let category_stats = sort_stats(stats);
    proof {
        lemma_build_tree_tally(root0, es, sep);
        lemma_placed_le(es);
        assert(total_size(root0) == 0);
        assert(dir_count(root0) == 1);
    }
    let dirs = root.dir_count() - 1;
    let ghost tree = root@;
    compute_recursive_sizes(&mut root);
    proof {
        law_scan_totals_match_tree(root_name@, root_path@, root_modified, es, sep);
        lemma_build_tree_paths(root0, es, sep);
        crate::tree::lemma_recursive_sizes_paths(tree, sep);
        crate::tree::law_recursive_sizes_keep_tallies(tree, crate::tree::Measure::Bytes);
        crate::tree::law_recursive_sizes_keep_tallies(tree, crate::tree::Measure::Files);
        crate::tree::law_recursive_sizes_keep_tallies(tree, crate::tree::Measure::Dirs);
    }
    ScanResult { total_size: total_bytes, file_count: files, dir_count: dirs, category_stats, root }
}

/// A partial sum over the categories is at most the full one.
proof fn lemma_sum_prefix_le(entries: Seq<RawEntry>, k: nat, n: nat)
    requires
        k <= n,
    ensures
        sum_categories(entries, k, true) <= sum_categories(entries, n, true),
        sum_categories(entries, k, false) <= sum_categories(entries, n, false),
    decreases n - k,
{
    if k < n {
        lemma_sum_prefix_le(entries, k, (n - 1) as nat);
    }
}


/// What a scan of one directory found on disk, as plain values.
pub struct ScanRequest {
    /// Whether the path exists.
    pub exists: bool,
    /// Whether the path is a directory.
    pub is_dir: bool,
    /// The path as `{:?}` shows it, for error messages.
    pub path_debug: String,
    /// The last component of the path, if it has one.
    pub file_name: Option<String>,
    /// The path itself.
    pub path: String,
    /// Seconds since the Unix epoch at which the root was last modified.
    pub modified: Option<i64>,
    /// The entries of the walk below the root, in walk order.
    pub entries: Vec<RawEntry>,
    /// The character that separates the components of a path.
    pub separator: char,
}

/// The name that a scan gives its root: its last path component, or "root".
pub open spec fn root_name_of(file_name: Option<String>) -> Seq<char> {
    match file_name {
        Some(n) => n@,
        None => "root"@,
    }
}

/// Scans a directory: refuses a path that does not exist or is not a
/// directory, with a message that names it; builds the tree and the
/// statistics otherwise.
pub fn scan_directory(req: ScanRequest) -> (r: Result<ScanResult, String>)
    requires
        req.exists && req.is_dir ==> {
            &&& file_bytes(req.entries@) <= u64::MAX
            &&& total_components(req.entries@) < usize::MAX
            &&& forall|c: FileCategory| category_bytes(req.entries@, c) != 0x8000_0000_0000_0000
            &&& all_entries_placed(req.entries@)
        },
    ensures
        !req.exists ==> r is Err && r->Err_0@ == "路径不存在: "@ + req.path_debug@,
        req.exists && !req.is_dir ==> r is Err && r->Err_0@ == "路径不是目录: "@ + req.path_debug@,
        req.exists && req.is_dir ==> r is Ok && scan_result_of(
            r->Ok_0,
            root_name_of(req.file_name),
            req.path@,
            req.modified,
            req.entries@,
            req.separator,
        ),
        req.exists && req.is_dir ==> {
            &&& r->Ok_0.total_size == total_size(r->Ok_0.root@)
            &&& r->Ok_0.file_count == file_count(r->Ok_0.root@)
            &&& r->Ok_0.dir_count + 1 == dir_count(r->Ok_0.root@)
            &&& r->Ok_0.root@.name == root_name_of(req.file_name)
            &&& r->Ok_0.root@.path == req.path@
            &&& paths_joined(r->Ok_0.root@, req.separator)
        },
{
    if !req.exists {
        return Err(crate::text::concat2("路径不存在: ", req.path_debug.as_str()));
    }
    if !req.is_dir {
        return Err(crate::text::concat2("路径不是目录: ", req.path_debug.as_str()));
    }
    let name = match req.file_name {
        Some(n) => n,
        None => String::from_str("root"),
    };
    Ok(build_scan_result(name, req.path, req.modified, req.entries, req.separator))
}

/// Law: when every entry of the walk lies below the root, the scan's totals
/// are those of its tree: the bytes and files counted over the entries are the
/// bytes and files of the tree built from them.
pub proof fn law_scan_totals_match_tree(
    name: Seq<char>,
    path: Seq<char>,
    modified: Option<i64>,
    entries: Seq<RawEntry>,
    sep: char,
)
    requires
        all_entries_placed(entries),
    ensures
        total_size(build_tree(root_node(name, path, modified), entries, sep)) == file_bytes(entries),
        file_count(build_tree(root_node(name, path, modified), entries, sep)) == file_entries(entries),
        build_tree(root_node(name, path, modified), entries, sep).is_dir,
{
    let root0 = root_node(name, path, modified);
    assert(total_size(root0) == 0);
    assert(crate::tree::tally(root0, crate::tree::Measure::Files) == 0);
    lemma_build_tree_tally(root0, entries, sep);
    lemma_placed_le(entries);
}

/// The sizes (`bytes`) or the file counts (`!bytes`) of some statistics,
/// added up.
pub open spec fn stats_sum(s: Seq<(FileCategory, nat, nat)>, bytes: bool) -> nat
    decreases s.len(),
{
    if s.len() == 0 {
        0
    } else {
        stats_sum(s.drop_last(), bytes) + if bytes { s.last().1 } else { s.last().2 }
    }
}

/// A category without files has no bytes.
proof fn lemma_no_files_no_bytes(entries: Seq<RawEntry>, c: FileCategory)
    ensures
        category_files(entries, c) == 0 ==> category_bytes(entries, c) == 0,
    decreases entries.len(),
{
    if entries.len() > 0 {
        lemma_no_files_no_bytes(entries.drop_last(), c);
    }
}

proof fn lemma_present_stats_sum(entries: Seq<RawEntry>, k: nat, bytes: bool)
    requires
        k <= 6,
    ensures
        stats_sum(present_stats_upto(entries, k), bytes) == sum_categories(entries, k, bytes),
    decreases k,
{
    if k > 0 {
        lemma_present_stats_sum(entries, (k - 1) as nat, bytes);
        let c = all_categories()[k - 1];
        lemma_no_files_no_bytes(entries, c);
        let prev = present_stats_upto(entries, (k - 1) as nat);
        if category_files(entries, c) > 0 {
            let t = (c, category_bytes(entries, c), category_files(entries, c));
            assert(prev.push(t).drop_last() =~= prev);
        }
    }
}

proof fn lemma_stats_sum_remove(s: Seq<(FileCategory, nat, nat)>, j: int, bytes: bool)
    requires
        0 <= j < s.len(),
    ensures
        stats_sum(s, bytes) == stats_sum(s.remove(j), bytes) + if bytes { s[j].1 } else { s[j].2 },
    decreases s.len(),
{
    if j == s.len() - 1 {
        assert(s.remove(j) =~= s.drop_last());
    } else {
        lemma_stats_sum_remove(s.drop_last(), j, bytes);
        assert(s.remove(j).drop_last() =~= s.drop_last().remove(j));
        assert(s.remove(j).last() == s.last());
    }
}

/// Listing the statistics in another order keeps their sums.
proof fn lemma_stats_sum_permuted(
    s: Seq<(FileCategory, nat, nat)>,
    out: Seq<(FileCategory, nat, nat)>,
    perm: Seq<int>,
    bytes: bool,
)
    requires
        out.len() == s.len(),
        perm.len() == s.len(),
        forall|k: int| 0 <= k < s.len() ==> #[trigger] perm.contains(k),
        forall|a: int| 0 <= a < perm.len() ==> 0 <= #[trigger] perm[a] < s.len(),
        forall|a: int| 0 <= a < perm.len() ==> out[a] == s[#[trigger] perm[a]],
        forall|a: int, b: int| 0 <= a < b < perm.len() ==> #[trigger] perm[a] != #[trigger] perm[b],
    ensures
        stats_sum(out, bytes) == stats_sum(s, bytes),
    decreases s.len(),
{
    let n = s.len() as int;
    if n > 0 {
        assert(perm.contains(n - 1));
        let j = choose|j: int| 0 <= j < perm.len() && perm[j] == n - 1;
        let s2 = s.drop_last();
        let out2 = out.remove(j);
        let perm2 = perm.remove(j);
        assert forall|a: int| 0 <= a < perm2.len() implies 0 <= #[trigger] perm2[a] < s2.len() by {
            if a < j {
                assert(perm2[a] == perm[a]);
                assert(perm[a] != perm[j]);
            } else {
                assert(perm2[a] == perm[a + 1]);
                assert(perm[j] != perm[a + 1]);
            }
        }
        assert forall|a: int| 0 <= a < perm2.len() implies out2[a] == s2[#[trigger] perm2[a]] by {
            if a < j {
                assert(perm2[a] == perm[a]);
            } else {
                assert(perm2[a] == perm[a + 1]);
            }
        }
        assert forall|k: int| 0 <= k < s2.len() implies #[trigger] perm2.contains(k) by {
            assert(perm.contains(k));
            let b = choose|b: int| 0 <= b < perm.len() && perm[b] == k;
            if b < j {
                assert(perm2[b] == k);
            } else {
                assert(b != j);
                assert(perm2[b - 1] == k);
            }
        }
        assert forall|a: int, b: int| 0 <= a < b < perm2.len() implies #[trigger] perm2[a] != #[trigger] perm2[b] by {
            let a0 = if a < j { a } else { a + 1 };
            let b0 = if b < j { b } else { b + 1 };
            assert(perm2[a] == perm[a0]);
            assert(perm2[b] == perm[b0]);
            assert(perm[a0] != perm[b0]);
        }
        lemma_stats_sum_permuted(s2, out2, perm2, bytes);
        lemma_stats_sum_remove(out, j, bytes);
        assert(out[j] == s[n - 1]);
    }
}

/// Law: the category statistics of a scan add up to its totals: their sizes
/// to the total size and their file counts to the file count.
pub proof fn law_category_stats_add_up(
    r: ScanResult,
    name: Seq<char>,
    path: Seq<char>,
    modified: Option<i64>,
    entries: Seq<RawEntry>,
    sep: char,
)
    requires
        scan_result_of(r, name, path, modified, entries, sep),
    ensures
        stats_sum(r.category_stats@.map_values(|s: CategoryStats| stats_value(s)), true) == r.total_size,
        stats_sum(r.category_stats@.map_values(|s: CategoryStats| stats_value(s)), false) == r.file_count,
{
    let out = r.category_stats@.map_values(|s: CategoryStats| stats_value(s));
    let stats = present_stats(entries);
    let perm = choose|perm: Seq<int>|
        {
            &&& perm.len() == stats.len()
            &&& forall|k: int| 0 <= k < stats.len() ==> #[trigger] perm.contains(k)
            &&& forall|a: int| 0 <= a < perm.len() ==> 0 <= #[trigger] perm[a] < stats.len()
            &&& forall|a: int| 0 <= a < perm.len() ==> out[a] == stats[#[trigger] perm[a]]
            &&& forall|a: int, b: int|
                #![trigger perm[a], perm[b]]
                0 <= a < b < perm.len() ==> {
                    let ka = stats_key(stats[perm[a]].1);
                    let kb = stats_key(stats[perm[b]].1);
                    ka < kb || (ka == kb && perm[a] < perm[b])
                }
        };
    assert forall|a: int, b: int| 0 <= a < b < perm.len() implies #[trigger] perm[a] != #[trigger] perm[b] by {
        let ka = stats_key(stats[perm[a]].1);
        let kb = stats_key(stats[perm[b]].1);
        assert(ka < kb || (ka == kb && perm[a] < perm[b]));
    }
    lemma_stats_sum_permuted(stats, out, perm, true);
    lemma_stats_sum_permuted(stats, out, perm, false);
    lemma_present_stats_sum(entries, 6, true);
    lemma_present_stats_sum(entries, 6, false);
    lemma_sum_categories(entries);
}

/// Building the tree adds to the root, for each category, exactly the bytes
/// and files of that category among the entries, when all are placed.
proof fn lemma_build_tree_category(root: FileNode, entries: Seq<RawEntry>, sep: char, c: FileCategory)
    requires
        root.is_dir,
        all_entries_placed(entries),
    ensures
        build_tree(root, entries, sep).is_dir,
        tally(build_tree(root, entries, sep), Measure::CategoryBytes(c)) == tally(root, Measure::CategoryBytes(c))
            + category_bytes(entries, c),
        tally(build_tree(root, entries, sep), Measure::CategoryFiles(c)) == tally(root, Measure::CategoryFiles(c))
            + category_files(entries, c),
    decreases entries.len(),
{
    lemma_build_tree_tally(root, entries, sep);
    if entries.len() > 0 {
        let prev = entries.drop_last();
        assert forall|i: int| 0 <= i < prev.len() implies (#[trigger] prev[i]).components@.len() > 0 by {
            assert(prev[i] == entries[i]);
        }
        lemma_build_tree_category(root, prev, sep, c);
        let r = entries.last();
        assert(entries[entries.len() - 1].components@.len() > 0);
        let t = build_tree(root, prev, sep);
        let cv = string_views(r.components@);
        let e = raw_node(r, t.path, sep);
        assert(e.children.len() == 0);
        lemma_insert_measure(t, cv, component_paths(t.path, cv, sep), 0, e, Measure::CategoryBytes(c));
        lemma_insert_measure(t, cv, component_paths(t.path, cv, sep), 0, e, Measure::CategoryFiles(c));
    }
}

/// Each entry of the first `k` categories' statistics holds the bytes and
/// files of its category among the entries, and that category has files.
proof fn lemma_present_stats_entries(entries: Seq<RawEntry>, k: nat)
    requires
        k <= 6,
    ensures
        forall|i: int| 0 <= i < present_stats_upto(entries, k).len() ==> {
            let s = #[trigger] present_stats_upto(entries, k)[i];
            s.1 == category_bytes(entries, s.0) && s.2 == category_files(entries, s.0) && s.2 > 0
        },
    decreases k,
{
    if k > 0 {
        lemma_present_stats_entries(entries, (k - 1) as nat);
        let prev = present_stats_upto(entries, (k - 1) as nat);
        let cur = present_stats_upto(entries, k);
        assert forall|i: int| 0 <= i < cur.len() implies {
            let s = #[trigger] cur[i];
            s.1 == category_bytes(entries, s.0) && s.2 == category_files(entries, s.0) && s.2 > 0
        } by {
            if i < prev.len() {
                assert(cur[i] == prev[i]);
            }
        }
    }
}

/// Law: each entry of a scan's category statistics is that category's share
/// of its tree: its size is the bytes of the tree's files of that category,
/// and its count is the number of those files, which is never zero.
pub proof fn law_category_stats_match_tree(
    r: ScanResult,
    name: Seq<char>,
    path: Seq<char>,
    modified: Option<i64>,
    entries: Seq<RawEntry>,
    sep: char,
)
    requires
        scan_result_of(r, name, path, modified, entries, sep),
        all_entries_placed(entries),
    ensures
        forall|i: int| 0 <= i < r.category_stats@.len() ==> {
            let s = #[trigger] r.category_stats@[i];
            &&& s.size as nat == tally(r.root@, Measure::CategoryBytes(s.category))
            &&& s.count as nat == tally(r.root@, Measure::CategoryFiles(s.category))
            &&& s.count > 0
        },
{
    let out = r.category_stats@.map_values(|s: CategoryStats| stats_value(s));
    let stats = present_stats(entries);
    let perm = choose|perm: Seq<int>|
        {
            &&& perm.len() == stats.len()
            &&& forall|k: int| 0 <= k < stats.len() ==> #[trigger] perm.contains(k)
            &&& forall|a: int| 0 <= a < perm.len() ==> 0 <= #[trigger] perm[a] < stats.len()
            &&& forall|a: int| 0 <= a < perm.len() ==> out[a] == stats[#[trigger] perm[a]]
            &&& forall|a: int, b: int|
                #![trigger perm[a], perm[b]]
                0 <= a < b < perm.len() ==> {
                    let ka = stats_key(stats[perm[a]].1);
                    let kb = stats_key(stats[perm[b]].1);
                    ka < kb || (ka == kb && perm[a] < perm[b])
                }
        };
    lemma_present_stats_entries(entries, 6);
    let root0 = root_node(name, path, modified);
    let tree = build_tree(root0, entries, sep);
    assert forall|i: int| 0 <= i < r.category_stats@.len() implies {
        let s = #[trigger] r.category_stats@[i];
        &&& s.size as nat == tally(r.root@, Measure::CategoryBytes(s.category))
        &&& s.count as nat == tally(r.root@, Measure::CategoryFiles(s.category))
        &&& s.count > 0
    } by {
        let s = r.category_stats@[i];
        assert(out[i] == stats_value(s));
        assert(out[i] == stats[perm[i]]);
        let c = s.category;
        lemma_build_tree_category(root0, entries, sep, c);
        law_recursive_sizes_keep_tallies(tree, Measure::CategoryBytes(c));
        law_recursive_sizes_keep_tallies(tree, Measure::CategoryFiles(c));
    }
}

proof fn lemma_build_tree_root(root: FileNode, entries: Seq<RawEntry>, sep: char)
    ensures
        same_entry(build_tree(root, entries, sep), root),
    decreases entries.len(),
{
    if entries.len() > 0 {
        let prev = entries.drop_last();
        lemma_build_tree_root(root, prev, sep);
        let r = entries.last();
        if r.components@.len() > 0 {
            let t = build_tree(root, prev, sep);
            let cv = string_views(r.components@);
            lemma_insert_keeps_node(t, cv, component_paths(t.path, cv, sep), 0, raw_node(r, t.path, sep));
        }
    }
}

/// Every placed entry has a node of its own in the built tree.
proof fn lemma_build_tree_keeps_entries(root: FileNode, entries: Seq<RawEntry>, sep: char, i: int)
    requires
        0 <= i < entries.len(),
        entries[i].components@.len() > 0,
    ensures
        exists|idxs: Seq<int>|
            #[trigger] node_at(build_tree(root, entries, sep), idxs) is Some && same_entry(
                node_at(build_tree(root, entries, sep), idxs)->0,
                raw_node(entries[i], root.path, sep),
            ),
    decreases entries.len(),
{
    let prev = entries.drop_last();
    let t = build_tree(root, prev, sep);
    let r = entries.last();
    let cv = string_views(r.components@);
    let paths = component_paths(t.path, cv, sep);
    let e = raw_node(r, t.path, sep);
    lemma_build_tree_root(root, prev, sep);
    if i == entries.len() - 1 {
        lemma_insert_places_entry(t, cv, paths, 0, e);
        let idxs = choose|idxs: Seq<int>| #[trigger] node_at(insert_at(t, cv, paths, 0, e), idxs) == Some(e);
        assert(node_at(build_tree(root, entries, sep), idxs) == Some(e));
    } else {
        assert(prev[i] == entries[i]);
        lemma_build_tree_keeps_entries(root, prev, sep, i);
        let idxs = choose|idxs: Seq<int>|
            #[trigger] node_at(t, idxs) is Some && same_entry(node_at(t, idxs)->0, raw_node(prev[i], root.path, sep));
        if r.components@.len() > 0 {
            lemma_insert_keeps_entries(t, cv, paths, 0, e, idxs);
        }
        assert(node_at(build_tree(root, entries, sep), idxs) is Some);
    }
}

/// Law: every entry of the walk below the root has a node of its own in the
/// scanned tree, with the entry's name (the last component of its relative
/// path), its path below the root, its kind, its size (0 for a directory),
/// its category and its modification time.
pub proof fn law_scan_keeps_entries(
    r: ScanResult,
    name: Seq<char>,
    path: Seq<char>,
    modified: Option<i64>,
    entries: Seq<RawEntry>,
    sep: char,
)
    requires
        scan_result_of(r, name, path, modified, entries, sep),
    ensures
        forall|i: int|
            0 <= i < entries.len() && (#[trigger] entries[i]).components@.len() > 0 ==> exists|idxs: Seq<int>|
                {
                    &&& #[trigger] node_at(r.root@, idxs) is Some
                    &&& node_at(r.root@, idxs)->0.name == entries[i].components@.last()@
                    &&& node_at(r.root@, idxs)->0.path == component_paths(
                        path,
                        string_views(entries[i].components@),
                        sep,
                    ).last()
                    &&& node_at(r.root@, idxs)->0.is_dir == entries[i].is_dir
                    &&& node_at(r.root@, idxs)->0.size == if entries[i].is_dir {
                        0
                    } else {
                        entries[i].len
                    }
                    &&& node_at(r.root@, idxs)->0.category == raw_category(entries[i])
                    &&& node_at(r.root@, idxs)->0.last_modified == entries[i].last_modified
                },
{
    let root0 = root_node(name, path, modified);
    let tree = build_tree(root0, entries, sep);
    assert forall|i: int|
        0 <= i < entries.len() && (#[trigger] entries[i]).components@.len() > 0 implies exists|idxs: Seq<int>|
            {
                &&& #[trigger] node_at(r.root@, idxs) is Some
                &&& node_at(r.root@, idxs)->0.name == entries[i].components@.last()@
                &&& node_at(r.root@, idxs)->0.path == component_paths(
                    path,
                    string_views(entries[i].components@),
                    sep,
                ).last()
                &&& node_at(r.root@, idxs)->0.is_dir == entries[i].is_dir
                &&& node_at(r.root@, idxs)->0.size == if entries[i].is_dir {
                    0
                } else {
                    entries[i].len
                }
                &&& node_at(r.root@, idxs)->0.category == raw_category(entries[i])
                &&& node_at(r.root@, idxs)->0.last_modified == entries[i].last_modified
            } by {
        lemma_build_tree_keeps_entries(root0, entries, sep, i);
        let idxs = choose|idxs: Seq<int>|
            #[trigger] node_at(tree, idxs) is Some && same_entry(node_at(tree, idxs)->0, raw_node(entries[i], path, sep));
        lemma_recursive_sizes_keep_entries(tree, idxs);
        assert(string_views(entries[i].components@).last() == entries[i].components@.last()@);
        assert(node_at(r.root@, idxs) is Some);
    }
}

/// The entries come as a walk gives them: a directory comes before anything
/// inside it, and once.  That is, no entry before a directory has a relative
/// path that starts with the directory's own.
pub open spec fn in_walk_order(entries: Seq<RawEntry>) -> bool {
    forall|i: int, j: int|
        #![trigger entries[i], entries[j]]
        0 <= j < i < entries.len() && entries[i].is_dir ==> !prefix_from(
            string_views(entries[i].components@),
            string_views(entries[j].components@),
            0,
        )
}

/// A directory path in the built tree leads along some entry's path.
proof fn lemma_build_tree_dirs(root: FileNode, entries: Seq<RawEntry>, sep: char, q: Seq<Seq<char>>)
    requires
        root.children.len() == 0,
        q.len() > 0,
        dir_path_exists(build_tree(root, entries, sep), q, 0),
    ensures
        exists|j: int| 0 <= j < entries.len() && prefix_from(q, string_views((#[trigger] entries[j]).components@), 0),
    decreases entries.len(),
{
    if entries.len() == 0 {
        assert(first_dir_named(root.children, q[0]) < 0);
    } else {
        let prev = entries.drop_last();
        let t = build_tree(root, prev, sep);
        let r = entries.last();
        if r.components@.len() == 0 {
            lemma_build_tree_dirs(root, prev, sep, q);
            let j = choose|j: int| 0 <= j < prev.len() && prefix_from(q, string_views((#[trigger] prev[j]).components@), 0);
            assert(prev[j] == entries[j]);
        } else {
            let cv = string_views(r.components@);
            lemma_insert_dir_paths(t, cv, component_paths(t.path, cv, sep), 0, raw_node(r, t.path, sep), q);
            if dir_path_exists(t, q, 0) {
                lemma_build_tree_dirs(root, prev, sep, q);
                let j = choose|j: int| 0 <= j < prev.len() && prefix_from(q, string_views((#[trigger] prev[j]).components@), 0);
                assert(prev[j] == entries[j]);
            } else {
                assert(entries[entries.len() - 1] == r);
            }
        }
    }
}

/// Building the tree from entries in walk order keeps directory names
/// distinct.
proof fn lemma_build_tree_distinct(root: FileNode, entries: Seq<RawEntry>, sep: char)
    requires
        root.children.len() == 0,
        in_walk_order(entries),
    ensures
        dir_names_distinct(build_tree(root, entries, sep)),
    decreases entries.len(),
{
    if entries.len() == 0 {
        assert(dir_names_distinct(root));
    } else {
        let prev = entries.drop_last();
        assert forall|i: int, j: int|
            #![trigger prev[i], prev[j]]
            0 <= j < i < prev.len() && prev[i].is_dir implies !prefix_from(
                string_views(prev[i].components@),
                string_views(prev[j].components@),
                0,
            ) by {
            assert(prev[i] == entries[i] && prev[j] == entries[j]);
        }
        lemma_build_tree_distinct(root, prev, sep);
        let t = build_tree(root, prev, sep);
        let r = entries.last();
        if r.components@.len() > 0 {
            let cv = string_views(r.components@);
            let e = raw_node(r, t.path, sep);
            assert(dir_names_distinct(e));
            if r.is_dir && dir_path_exists(t, cv, 0) {
                lemma_build_tree_dirs(root, prev, sep, cv);
                let j = choose|j: int| 0 <= j < prev.len() && prefix_from(cv, string_views((#[trigger] prev[j]).components@), 0);
                assert(prev[j] == entries[j]);
                assert(entries[entries.len() - 1] == r);
            }
            lemma_insert_distinct(t, cv, component_paths(t.path, cv, sep), 0, e);
        }
    }
}

/// Law: when the walk gives a directory before anything inside it, and
/// once, no directory of the scanned tree has two subdirectories of the same
/// name.
pub proof fn law_scan_dir_names_distinct(
    r: ScanResult,
    name: Seq<char>,
    path: Seq<char>,
    modified: Option<i64>,
    entries: Seq<RawEntry>,
    sep: char,
)
    requires
        scan_result_of(r, name, path, modified, entries, sep),
        in_walk_order(entries),
    ensures
        dir_names_distinct(r.root@),
{
    let root0 = root_node(name, path, modified);
    lemma_build_tree_distinct(root0, entries, sep);
    lemma_recursive_sizes_distinct(build_tree(root0, entries, sep));
}

// ------------------------------------------------------------------
// Search
// ------------------------------------------------------------------

/// One entry of a walk that a search looks at.
pub struct SearchCandidate {
    pub name: String,
    pub path: String,
}

/// A file name matches a query when, both in lower case, the query occurs in
/// the name.
pub open spec fn search_hit(name: Seq<char>, query: Seq<char>) -> bool {
    seq_contains(spec_lowercase(name), spec_lowercase(query))
}

/// The paths of the candidates whose names match the query, in order.
pub open spec fn search_hits(cands: Seq<SearchCandidate>, query: Seq<char>) -> Seq<Seq<char>>
    decreases cands.len(),
{
    if cands.len() == 0 {
        Seq::empty()
    } else {
        let prev = search_hits(cands.drop_last(), query);
        if search_hit(cands.last().name@, query) {
            prev.push(cands.last().path@)
        } else {
            prev
        }
    }
}

/// Law: a search gives, in walk order, the paths of exactly those entries
/// whose file name (not their whole path) contains the query, both put in
/// lower case: every path given comes from such an entry, and every such
/// entry's path is given.
pub proof fn law_search_matches_names(cands: Seq<SearchCandidate>, query: Seq<char>)
    ensures
        search_hits(cands, query) == cands.filter(
            |c: SearchCandidate| seq_contains(spec_lowercase(c.name@), spec_lowercase(query)),
        ).map_values(|c: SearchCandidate| c.path@),
        forall|k: int|
            #![trigger search_hits(cands, query)[k]]
            0 <= k < search_hits(cands, query).len() ==> exists|j: int|
            0 <= j < cands.len() && (#[trigger] cands[j]).path@ == search_hits(cands, query)[k]
                && seq_contains(spec_lowercase(cands[j].name@), spec_lowercase(query)),
        forall|j: int| 0 <= j < cands.len() && seq_contains(spec_lowercase((#[trigger] cands[j]).name@), spec_lowercase(query))
            ==> search_hits(cands, query).contains(cands[j].path@),
    decreases cands.len(),
{
    let pred = |c: SearchCandidate| seq_contains(spec_lowercase(c.name@), spec_lowercase(query));
    let hits = search_hits(cands, query);
    reveal(Seq::filter);
    if cands.len() > 0 {
        let prev = cands.drop_last();
        law_search_matches_names(prev, query);
        let ph = search_hits(prev, query);
        assert(cands.filter(pred) == if pred(cands.last()) {
            prev.filter(pred).push(cands.last())
        } else {
            prev.filter(pred)
        });
        if pred(cands.last()) {
            assert(cands.filter(pred).map_values(|c: SearchCandidate| c.path@) =~= prev.filter(pred).map_values(
                |c: SearchCandidate| c.path@,
            ).push(cands.last().path@));
        }
        assert forall|k: int|
            #![trigger hits[k]]
            0 <= k < hits.len() implies exists|j: int|
            0 <= j < cands.len() && (#[trigger] cands[j]).path@ == hits[k]
                && seq_contains(spec_lowercase(cands[j].name@), spec_lowercase(query)) by {
            if k < ph.len() {
                assert(hits[k] == ph[k]);
                let j = choose|j: int|
                    0 <= j < prev.len() && (#[trigger] prev[j]).path@ == ph[k]
                        && seq_contains(spec_lowercase(prev[j].name@), spec_lowercase(query));
                assert(cands[j] == prev[j]);
            } else {
                assert(search_hit(cands.last().name@, query));
                assert(hits == ph.push(cands.last().path@));
                assert(hits[k] == cands.last().path@);
                let j = cands.len() - 1;
                assert(cands[j] == cands.last());
                assert(0 <= j < cands.len() && cands[j].path@ == hits[k]
                    && seq_contains(spec_lowercase(cands[j].name@), spec_lowercase(query)));
            }
        }
        assert forall|j: int| 0 <= j < cands.len() && seq_contains(spec_lowercase((#[trigger] cands[j]).name@), spec_lowercase(query))
            implies hits.contains(cands[j].path@) by {
            if j < prev.len() {
                assert(cands[j] == prev[j]);
                let k = choose|k: int| 0 <= k < ph.len() && ph[k] == prev[j].path@;
                assert(hits[k] == ph[k]);
            } else {
                assert(hits[hits.len() - 1] == cands[j].path@);
            }
        }
    } else {
        assert(hits.len() == 0);
        assert(cands.filter(pred).map_values(|c: SearchCandidate| c.path@) =~= Seq::<Seq<char>>::empty());
    }
}

/// The paths, among the entries of a walk, whose file names contain the
/// query, ignoring case.
pub fn search_files(cands: &Vec<SearchCandidate>, query: &str) -> (r: Vec<String>)
    ensures
        string_views(r@) == search_hits(cands@, query@),
        string_views(r@) == cands@.filter(
            |c: SearchCandidate| seq_contains(spec_lowercase(c.name@), spec_lowercase(query@)),
        ).map_values(|c: SearchCandidate| c.path@),
{
    proof {
        law_search_matches_names(cands@, query@);
    }
    let query_lower = to_lowercase(query);
    let mut results: Vec<String> = Vec::new();
    let mut i: usize = 0;
    while i < cands.len()
        invariant
            i <= cands@.len(),
            query_lower@ == spec_lowercase(query@),
            string_views(results@) == search_hits(cands@.take(i as int), query@),
        decreases cands@.len() - i,
    {
        let name_lower = to_lowercase(cands[i].name.as_str());
        let ghost before = results@;
        proof {
            assert(cands@.take(i as int + 1).drop_last() =~= cands@.take(i as int));
        }
        if contains_str(name_lower.as_str(), query_lower.as_str()) {
            results.push(cands[i].path.clone());
            proof {
                assert(string_views(results@) =~= string_views(before).push(cands@[i as int].path@));
            }
        }
        i = i + 1;
    }
    proof {
        assert(cands@.take(i as int) =~= cands@);
    }
    results
}

} // verus!
