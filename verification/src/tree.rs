//! The file tree of a scanned directory: its model, the sizes and counts
//! over it, and the insertion of an entry at a relative path.
use vstd::prelude::*;
use crate::category::FileCategory;

verus! {

/// One file or directory of a scanned tree.
pub struct FileEntry {
    pub name: String,
    pub path: String,
    pub is_dir: bool,
    pub size: u64,
    /// For a directory, the total size of the files below it, once
    /// `compute_recursive_sizes` has run.
    pub size_recursive: u64,
    pub category: FileCategory,
    pub children: Vec<FileEntry>,
    /// Seconds since the Unix epoch.
    pub last_modified: Option<i64>,
}

/// The mathematical value of a `FileEntry`.
#[verifier::ext_equal]
pub struct FileNode {
    pub name: Seq<char>,
    pub path: Seq<char>,
    pub is_dir: bool,
    pub size: u64,
    pub size_recursive: u64,
    pub category: FileCategory,
    pub children: Seq<FileNode>,
    pub last_modified: Option<i64>,
}

pub open spec fn node_of(e: FileEntry) -> FileNode
    decreases e,
{
    proof {
        assert forall|i: int| 0 <= i < e.children@.len() implies decreases_to!(e => e.children@[i]) by {
            assert(decreases_to!(e => e.children));
            assert(decreases_to!(e.children => e.children@));
            assert(decreases_to!(e.children@ => e.children@[i]));
        }
    }
    FileNode {
        name: e.name@,
        path: e.path@,
        is_dir: e.is_dir,
        size: e.size,
        size_recursive: e.size_recursive,
        category: e.category,
        children: nodes_of(e.children@),
        last_modified: e.last_modified,
    }
}

/// The values of a sequence of entries.
pub open spec fn nodes_of(s: Seq<FileEntry>) -> Seq<FileNode>
    decreases s,
{
    Seq::new(
        s.len(),
        |i: int|
            if 0 <= i < s.len() {
                node_of(s[i])
            } else {
                vstd::pervasive::arbitrary()
            },
    )
}

impl View for FileEntry {
    type V = FileNode;

    open spec fn view(&self) -> FileNode {
        node_of(*self)
    }
}

/// What is tallied over a tree.
pub enum Measure {
    /// bytes in files
    Bytes,
    /// files
    Files,
    /// directories, the node itself included
    Dirs,
    /// bytes in the files of one category
    CategoryBytes(FileCategory),
    /// files of one category
    CategoryFiles(FileCategory),
}

/// A measure of a node: a file counts its size, or 1, or 0 (and for the
/// measures of a category, 0 where it has another category); a directory
/// the sum over its children (plus itself, for `Dirs`).
pub open spec fn tally(n: FileNode, m: Measure) -> nat
    decreases n,
{
    if !n.is_dir {
        match m {
            Measure::Bytes => n.size as nat,
            Measure::Files => 1,
            Measure::Dirs => 0,
            Measure::CategoryBytes(c) => if n.category == c {
                n.size as nat
            } else {
                0
            },
            Measure::CategoryFiles(c) => if n.category == c {
                1
            } else {
                0
            },
        }
    } else {
        match m {
            Measure::Dirs => 1 + forest_tally(n.children, m),
            _ => forest_tally(n.children, m),
        }
    }
}

/// The sum of `tally` over a sequence of nodes.
pub open spec fn forest_tally(s: Seq<FileNode>, m: Measure) -> nat
    decreases s,
{
    if s.len() == 0 {
        0
    } else {
        forest_tally(s.drop_last(), m) + tally(s.last(), m)
    }
}

/// Nodes in a tree, counting every node whatever its kind.
pub open spec fn node_count(n: FileNode) -> nat
    decreases n,
{
    1 + forest_node_count(n.children)
}

pub open spec fn forest_node_count(s: Seq<FileNode>) -> nat
    decreases s,
{
    if s.len() == 0 {
        0
    } else {
        forest_node_count(s.drop_last()) + node_count(s.last())
    }
}

pub proof fn lemma_forest_node_count_elem(s: Seq<FileNode>, p: int)
    requires
        0 <= p < s.len(),
    ensures
        node_count(s[p]) <= forest_node_count(s),
    decreases s.len(),
{
    if p < s.len() - 1 {
        lemma_forest_node_count_elem(s.drop_last(), p);
    }
}

/// Bytes in the files of a tree (`FileEntry::total_size`).
pub open spec fn total_size(n: FileNode) -> nat {
    tally(n, Measure::Bytes)
}

/// Files in a tree (`FileEntry::file_count`).
pub open spec fn file_count(n: FileNode) -> nat {
    tally(n, Measure::Files)
}

/// Directories in a tree, its root included (`FileEntry::dir_count`).
pub open spec fn dir_count(n: FileNode) -> nat {
    tally(n, Measure::Dirs)
}

/// The tree with each directory's `size_recursive` set to the bytes below it.
pub open spec fn with_recursive_sizes(n: FileNode) -> FileNode
    decreases n,
{
    if !n.is_dir {
        n
    } else {
        FileNode {
            size_recursive: total_size(n) as u64,
            children: Seq::new(
                n.children.len(),
                |i: int|
                    if 0 <= i < n.children.len() {
                        with_recursive_sizes(n.children[i])
                    } else {
                        vstd::pervasive::arbitrary()
                    },
            ),
            ..n
        }
    }
}

/// Law: filling in the recursive sizes keeps every tally of the tree: its
/// bytes, its files and its directories.
pub proof fn law_recursive_sizes_keep_tallies(n: FileNode, m: Measure)
    ensures
        tally(with_recursive_sizes(n), m) == tally(n, m),
    decreases node_count(n), n.children.len() + 1,
{
    if n.is_dir {
        lemma_recursive_sizes_forest(n, m, n.children.len() as int);
        let kids = with_recursive_sizes(n).children;
        assert(kids.take(n.children.len() as int) =~= kids);
        assert(n.children.take(n.children.len() as int) =~= n.children);
    }
}

proof fn lemma_recursive_sizes_forest(n: FileNode, m: Measure, k: int)
    requires
        n.is_dir,
        0 <= k <= n.children.len(),
    ensures
        forest_tally(with_recursive_sizes(n).children.take(k), m) == forest_tally(n.children.take(k), m),
    decreases node_count(n), k,
{
    if k > 0 {
        lemma_recursive_sizes_forest(n, m, k - 1);
        let kids = with_recursive_sizes(n).children;
        lemma_forest_node_count_elem(n.children, k - 1);
        law_recursive_sizes_keep_tallies(n.children[k - 1], m);
        assert(kids.take(k).drop_last() =~= kids.take(k - 1));
        assert(n.children.take(k).drop_last() =~= n.children.take(k - 1));
    }
}

pub proof fn lemma_forest_tally_push(s: Seq<FileNode>, x: FileNode, m: Measure)
    ensures
        forest_tally(s.push(x), m) == forest_tally(s, m) + tally(x, m),
{
    assert(s.push(x).drop_last() =~= s);
}

pub proof fn lemma_forest_tally_take(s: Seq<FileNode>, i: int, m: Measure)
    requires
        0 <= i < s.len(),
    ensures
        forest_tally(s.take(i + 1), m) == forest_tally(s.take(i), m) + tally(s[i], m),
{
    assert(s.take(i + 1).drop_last() =~= s.take(i));
}

pub proof fn lemma_forest_tally_take_le(s: Seq<FileNode>, i: int, m: Measure)
    requires
        0 <= i <= s.len(),
    ensures
        forest_tally(s.take(i), m) <= forest_tally(s, m),
    decreases s.len() - i,
{
    if i < s.len() {
        lemma_forest_tally_take(s, i, m);
        lemma_forest_tally_take_le(s, i + 1, m);
    } else {
        assert(s.take(i) =~= s);
    }
}

pub proof fn lemma_forest_tally_update(s: Seq<FileNode>, p: int, x: FileNode, m: Measure)
    requires
        0 <= p < s.len(),
    ensures
        forest_tally(s.update(p, x), m) + tally(s[p], m) == forest_tally(s, m) + tally(x, m),
    decreases s.len(),
{
    if p == s.len() - 1 {
        assert(s.update(p, x).drop_last() =~= s.drop_last());
    } else {
        lemma_forest_tally_update(s.drop_last(), p, x, m);
        assert(s.update(p, x).drop_last() =~= s.drop_last().update(p, x));
    }
}

pub proof fn lemma_forest_tally_elem_le(s: Seq<FileNode>, p: int, m: Measure)
    requires
        0 <= p < s.len(),
    ensures
        tally(s[p], m) <= forest_tally(s, m),
    decreases s.len(),
{
    if p < s.len() - 1 {
        lemma_forest_tally_elem_le(s.drop_last(), p, m);
    }
}

// ------------------------------------------------------------------
// Insertion at a relative path
// ------------------------------------------------------------------

/// The views of a sequence of strings.
pub open spec fn string_views(v: Seq<String>) -> Seq<Seq<char>> {
    Seq::new(v.len(), |i: int| v[i]@)
}

pub open spec fn dir_named(n: FileNode, name: Seq<char>) -> bool {
    n.is_dir && n.name == name
}

pub open spec fn is_first_dir_named(s: Seq<FileNode>, name: Seq<char>, i: int) -> bool {
    &&& 0 <= i < s.len()
    &&& dir_named(s[i], name)
    &&& forall|j: int| 0 <= j < i ==> !dir_named(#[trigger] s[j], name)
}

/// Position of the first directory called `name` in `s`, or -1.
pub open spec fn first_dir_named(s: Seq<FileNode>, name: Seq<char>) -> int {
    if exists|i: int| is_first_dir_named(s, name, i) {
        choose|i: int| is_first_dir_named(s, name, i)
    } else {
        -1
    }
}

pub proof fn lemma_first_dir_named(s: Seq<FileNode>, name: Seq<char>, i: int)
    requires
        is_first_dir_named(s, name, i),
    ensures
        first_dir_named(s, name) == i,
{
    let k = first_dir_named(s, name);
    assert(is_first_dir_named(s, name, k));
    if k < i {
        assert(!dir_named(s[k], name));
    } else if k > i {
        assert(!dir_named(s[i], name));
    }
}

/// A directory made on the way to an entry whose parent is not yet in the tree.
pub open spec fn new_dir_node(name: Seq<char>, path: Seq<char>) -> FileNode {
    FileNode {
        name: name,
        path: path,
        is_dir: true,
        size: 0,
        size_recursive: 0,
        category: FileCategory::Other,
        children: Seq::empty(),
        last_modified: None,
    }
}

/// The tree `n` with `e` placed at the relative path `comps[idx..]` below it:
/// the last component names `e` itself, which is appended to the children of
/// its parent; each earlier component is looked up among the children as the
/// first directory of that name, and appended as a new directory (whose path is
/// the matching entry of `paths`) when there is none.
pub open spec fn insert_at(
    n: FileNode,
    comps: Seq<Seq<char>>,
    paths: Seq<Seq<char>>,
    idx: int,
    e: FileNode,
) -> FileNode
    decreases comps.len() - idx,
{
    if idx < 0 || idx >= comps.len() {
        n
    } else if idx == comps.len() - 1 {
        FileNode { children: n.children.push(e), ..n }
    } else {
        let pos = first_dir_named(n.children, comps[idx]);
        if pos >= 0 {
            FileNode {
                children: n.children.update(
                    pos,
                    insert_at(n.children[pos], comps, paths, idx + 1, e),
                ),
                ..n
            }
        } else {
            FileNode {
                children: n.children.push(
                    insert_at(new_dir_node(comps[idx], paths[idx]), comps, paths, idx + 1, e),
                ),
                ..n
            }
        }
    }
}

/// Inserting below a directory keeps it a directory and adds exactly the
/// bytes and files of the inserted entry; the directories grow by those of the
/// entry and by at most one new directory per component on the way.
pub proof fn lemma_insert_tally(
    n: FileNode,
    comps: Seq<Seq<char>>,
    paths: Seq<Seq<char>>,
    idx: int,
    e: FileNode,
)
    requires
        n.is_dir,
        0 <= idx < comps.len(),
    ensures
        insert_at(n, comps, paths, idx, e).is_dir,
        total_size(insert_at(n, comps, paths, idx, e)) == total_size(n) + total_size(e),
        file_count(insert_at(n, comps, paths, idx, e)) == file_count(n) + file_count(e),
        dir_count(insert_at(n, comps, paths, idx, e)) <= dir_count(n) + dir_count(e) + (
        comps.len() - 1 - idx),
    decreases comps.len() - idx,
{
    let r = insert_at(n, comps, paths, idx, e);
    if idx == comps.len() - 1 {
        lemma_forest_tally_push(n.children, e, Measure::Bytes);
        lemma_forest_tally_push(n.children, e, Measure::Files);
        lemma_forest_tally_push(n.children, e, Measure::Dirs);
    } else {
        let pos = first_dir_named(n.children, comps[idx]);
        if pos >= 0 {
            assert(is_first_dir_named(n.children, comps[idx], pos));
            let c = n.children[pos];
            lemma_insert_tally(c, comps, paths, idx + 1, e);
            let c2 = insert_at(c, comps, paths, idx + 1, e);
            lemma_forest_tally_update(n.children, pos, c2, Measure::Bytes);
            lemma_forest_tally_update(n.children, pos, c2, Measure::Files);
            lemma_forest_tally_update(n.children, pos, c2, Measure::Dirs);
        } else {
            let d = new_dir_node(comps[idx], paths[idx]);
            assert(d.children.len() == 0);
            assert(tally(d, Measure::Bytes) == 0);
            assert(tally(d, Measure::Files) == 0);
            assert(tally(d, Measure::Dirs) == 1);
            lemma_insert_tally(d, comps, paths, idx + 1, e);
            let d2 = insert_at(d, comps, paths, idx + 1, e);
            lemma_forest_tally_push(n.children, d2, Measure::Bytes);
            lemma_forest_tally_push(n.children, d2, Measure::Files);
            lemma_forest_tally_push(n.children, d2, Measure::Dirs);
        }
    }
}

/// Inserting below a directory adds to any measure but `Dirs` exactly that of
/// the inserted entry.
pub proof fn lemma_insert_measure(
    n: FileNode,
    comps: Seq<Seq<char>>,
    paths: Seq<Seq<char>>,
    idx: int,
    e: FileNode,
    m: Measure,
)
    requires
        n.is_dir,
        0 <= idx < comps.len(),
        !(m is Dirs),
    ensures
        tally(insert_at(n, comps, paths, idx, e), m) == tally(n, m) + tally(e, m),
    decreases comps.len() - idx,
{
    if idx == comps.len() - 1 {
        lemma_forest_tally_push(n.children, e, m);
    } else {
        let pos = first_dir_named(n.children, comps[idx]);
        if pos >= 0 {
            assert(is_first_dir_named(n.children, comps[idx], pos));
            let c = n.children[pos];
            lemma_insert_measure(c, comps, paths, idx + 1, e, m);
            lemma_forest_tally_update(n.children, pos, insert_at(c, comps, paths, idx + 1, e), m);
        } else {
            let d = new_dir_node(comps[idx], paths[idx]);
            assert(tally(d, m) == 0);
            lemma_insert_measure(d, comps, paths, idx + 1, e, m);
            lemma_forest_tally_push(n.children, insert_at(d, comps, paths, idx + 1, e), m);
        }
    }
}

impl FileEntry {
    /// Bytes in the files of this tree.
    pub fn total_size(&self) -> (r: u64)
        requires
            total_size(self@) <= u64::MAX,
        ensures
            r == total_size(self@),
        decreases self,
    {
        if !self.is_dir {
            return self.size;
        }
        let ghost kids = self@.children;
        let mut sum: u64 = 0;
        let mut i: usize = 0;
        while i < self.children.len()
            invariant
                i <= self.children@.len() == kids.len(),
                kids == nodes_of(self.children@),
                self.is_dir,
                total_size(self@) <= u64::MAX,
                sum == forest_tally(kids.take(i as int), Measure::Bytes),
            decreases self.children@.len() - i,
        {
            proof {
                lemma_forest_tally_take(kids, i as int, Measure::Bytes);
                lemma_forest_tally_take_le(kids, i as int + 1, Measure::Bytes);
                assert(decreases_to!(self => self.children));
                assert(decreases_to!(self.children => self.children@));
                assert(decreases_to!(self.children@ => self.children@[i as int]));
            }
            let t = self.children[i].total_size();
            sum = sum + t;
            i = i + 1;
        }
        assert(kids.take(i as int) =~= kids);
        sum
    }

    /// Files in this tree (an entry that is not a directory counts as one).
    pub fn file_count(&self) -> (r: usize)
        requires
            file_count(self@) <= usize::MAX,
        ensures
            r == file_count(self@),
        decreases self,
    {
        if !self.is_dir {
            return 1;
        }
        let ghost kids = self@.children;
        let mut sum: usize = 0;
        let mut i: usize = 0;
        while i < self.children.len()
            invariant
                i <= self.children@.len() == kids.len(),
                kids == nodes_of(self.children@),
                self.is_dir,
                file_count(self@) <= usize::MAX,
                sum == forest_tally(kids.take(i as int), Measure::Files),
            decreases self.children@.len() - i,
        {
            proof {
                lemma_forest_tally_take(kids, i as int, Measure::Files);
                lemma_forest_tally_take_le(kids, i as int + 1, Measure::Files);
                assert(decreases_to!(self => self.children));
                assert(decreases_to!(self.children => self.children@));
                assert(decreases_to!(self.children@ => self.children@[i as int]));
            }
            let t = self.children[i].file_count();
            sum = sum + t;
            i = i + 1;
        }
        assert(kids.take(i as int) =~= kids);
        sum
    }

    /// Directories in this tree, this one included.
    pub fn dir_count(&self) -> (r: usize)
        requires
            dir_count(self@) <= usize::MAX,
        ensures
            r == dir_count(self@),
        decreases self,
    {
        if !self.is_dir {
            return 0;
        }
        let ghost kids = self@.children;
        let mut sum: usize = 0;
        let mut i: usize = 0;
        while i < self.children.len()
            invariant
                i <= self.children@.len() == kids.len(),
                kids == nodes_of(self.children@),
                self.is_dir,
                dir_count(self@) <= usize::MAX,
                sum == forest_tally(kids.take(i as int), Measure::Dirs),
            decreases self.children@.len() - i,
        {
            proof {
                lemma_forest_tally_take(kids, i as int, Measure::Dirs);
                lemma_forest_tally_take_le(kids, i as int + 1, Measure::Dirs);
                assert(decreases_to!(self => self.children));
                assert(decreases_to!(self.children => self.children@));
                assert(decreases_to!(self.children@ => self.children@[i as int]));
            }
            let t = self.children[i].dir_count();
            sum = sum + t;
            i = i + 1;
        }
        assert(kids.take(i as int) =~= kids);
        1 + sum
    }
}


/// Places `entry` at the relative path `comps[idx..]` below `node`; `paths[k]`
/// is the path of the directory that `comps[..=k]` names, used when that
/// directory has to be made.
pub fn insert_recursive(
    node: &mut FileEntry,
    comps: &Vec<String>,
    paths: &Vec<String>,
    idx: usize,
    entry: FileEntry,
)
    requires
        idx <= comps.len(),
        comps.len() == paths.len(),
    ensures
        final(node)@ == insert_at(
            old(node)@,
            string_views(comps@),
            string_views(paths@),
            idx as int,
            entry@,
        ),
    decreases comps.len() - idx,
{
    let ghost cv = string_views(comps@);
    let ghost pv = string_views(paths@);
    if idx >= comps.len() {
        return;
    }
    let ghost old_node = node@;
    if idx == comps.len() - 1 {
        node.children.push(entry);
        proof {
            assert(nodes_of(node.children@) =~= old_node.children.push(entry@));
            assert(node@ =~= insert_at(old_node, cv, pv, idx as int, entry@));
        }
        return;
    }
    let name = &comps[idx];
    let mut pos: usize = 0;
    let mut found = false;
    while pos < node.children.len()
        invariant_except_break
            !found,
        invariant
            pos <= node.children@.len(),
            node@ == old_node,
            cv == string_views(comps@),
            idx < comps.len(),
            *name == comps@[idx as int],
            forall|j: int| 0 <= j < pos ==> !dir_named(#[trigger] old_node.children[j], cv[idx as int]),
        ensures
            found ==> pos < node.children@.len() && dir_named(old_node.children[pos as int], cv[idx as int]),
            !found ==> pos == node.children@.len(),
            forall|j: int| 0 <= j < pos ==> !dir_named(#[trigger] old_node.children[j], cv[idx as int]),
        decreases node.children@.len() - pos,
    {
        proof {
            assert(old_node.children[pos as int] == node_of(node.children@[pos as int]));
            assert(cv[idx as int] == comps@[idx as int]@);
        }
        if node.children[pos].is_dir && crate::text::str_eq(node.children[pos].name.as_str(), name.as_str()) {
            found = true;
            break;
        }
        pos = pos + 1;
    }
    if found {
        proof {
            assert(is_first_dir_named(old_node.children, cv[idx as int], pos as int));
            lemma_first_dir_named(old_node.children, cv[idx as int], pos as int);
        }
        insert_recursive(&mut node.children[pos], comps, paths, idx + 1, entry);
        proof {
            assert(nodes_of(node.children@) =~= old_node.children.update(
                pos as int,
                insert_at(old_node.children[pos as int], cv, pv, idx + 1, entry@),
            ));
            assert(node@ =~= insert_at(old_node, cv, pv, idx as int, entry@));
        }
    } else {
        proof {
            assert(!exists|i: int| is_first_dir_named(old_node.children, cv[idx as int], i));
        }
        let mid = FileEntry {
            name: name.clone(),
            path: paths[idx].clone(),
            is_dir: true,
            size: 0,
            size_recursive: 0,
            category: FileCategory::Other,
            children: Vec::new(),
            last_modified: None,
        };
        proof {
            assert(nodes_of(mid.children@) =~= Seq::<FileNode>::empty());
            assert(mid@ =~= new_dir_node(cv[idx as int], pv[idx as int]));
        }
        node.children.push(mid);
        let last = node.children.len() - 1;
        insert_recursive(&mut node.children[last], comps, paths, idx + 1, entry);
        proof {
            assert(nodes_of(node.children@) =~= old_node.children.push(
                insert_at(new_dir_node(cv[idx as int], pv[idx as int]), cv, pv, idx + 1, entry@),
            ));
            assert(node@ =~= insert_at(old_node, cv, pv, idx as int, entry@));
        }
    }
}

/// Sets `size_recursive` of every directory of the tree to the bytes below
/// it, and returns the bytes of the whole tree.
pub fn compute_recursive_sizes(entry: &mut FileEntry) -> (r: u64)
    requires
        total_size(old(entry)@) <= u64::MAX,
    ensures
        r == total_size(old(entry)@),
        final(entry)@ == with_recursive_sizes(old(entry)@),
    decreases node_count(old(entry)@),
{
    if !entry.is_dir {
        return entry.size;
    }
    let ghost old_entry = *entry;
    let ghost old_node = entry@;
    let ghost kids = old_node.children;
    let mut sum: u64 = 0;
    let mut i: usize = 0;
    while i < entry.children.len()
        invariant
            i <= entry.children@.len() == kids.len(),
            old_node.is_dir,
            kids == old_node.children,
            total_size(old_node) <= u64::MAX,
            entry.is_dir,
            entry.name@ == old_node.name,
            entry.path@ == old_node.path,
            entry.size == old_node.size,
            entry.size_recursive == old_node.size_recursive,
            entry.category == old_node.category,
            entry.last_modified == old_node.last_modified,
            sum == forest_tally(kids.take(i as int), Measure::Bytes),
            forall|j: int| 0 <= j < i ==> #[trigger] node_of(entry.children@[j]) == with_recursive_sizes(kids[j]),
            forall|j: int| i <= j < kids.len() ==> #[trigger] entry.children@[j] == old_entry.children@[j],
            old_node == node_of(old_entry),
            *old(entry) == old_entry,
            old_entry.children@.len() == kids.len(),
        decreases entry.children@.len() - i,
    {
        proof {
            lemma_forest_node_count_elem(kids, i as int);
            assert(node_count(old_node) == 1 + forest_node_count(kids));
            assert(node_of(entry.children@[i as int]) == kids[i as int]);
            lemma_forest_tally_take(kids, i as int, Measure::Bytes);
            lemma_forest_tally_take_le(kids, i as int + 1, Measure::Bytes);
            assert(node_of(old_entry.children@[i as int]) == kids[i as int]);
            assert(entry.children@[i as int] == old_entry.children@[i as int]);
        }
        let t = compute_recursive_sizes(&mut entry.children[i]);
        sum = sum + t;
        i = i + 1;
    }
    assert(kids.take(i as int) =~= kids);
    entry.size_recursive = sum;
    proof {
        let w = with_recursive_sizes(old_node);
        assert(w.children.len() == kids.len());
        assert forall|j: int| 0 <= j < kids.len() implies #[trigger] nodes_of(entry.children@)[j] == w.children[j] by {
            assert(node_of(entry.children@[j]) == with_recursive_sizes(kids[j]));
        }
        assert(nodes_of(entry.children@) =~= w.children);
        assert(entry@ =~= with_recursive_sizes(old_node));
    }
    sum
}

// ------------------------------------------------------------------
// Paths
// ------------------------------------------------------------------

/// `name` appended to the path `parent` (as `Path::join` appends a relative
/// name where `sep` is the separator): a separator goes between them unless
/// `parent` is empty or already ends with one.
pub open spec fn path_join(parent: Seq<char>, name: Seq<char>, sep: char) -> Seq<char> {
    if parent.len() == 0 || parent.last() == sep {
        parent + name
    } else {
        parent.push(sep) + name
    }
}

/// `name` appended to the path `parent` with the separator `sep`.
pub fn join_path(parent: &str, name: &str, sep: char) -> (r: String)
    ensures
        r@ == path_join(parent@, name@, sep),
{
    let cs = crate::text::chars_of(parent);
    if cs.len() == 0 || cs[cs.len() - 1] == sep {
        crate::text::concat2(parent, name)
    } else {
        let mut r = crate::text::concat2(parent, "");
        proof {
            reveal_strlit("");
            assert(r@ =~= parent@);
        }
        crate::text::push_char(&mut r, sep);
        crate::text::append_str(&mut r, name);
        r
    }
}

/// Every node below `n` has the path of its parent joined with its name.
pub open spec fn paths_joined(n: FileNode, sep: char) -> bool
    decreases n,
{
    proof {
        assert forall|i: int| 0 <= i < n.children.len() implies decreases_to!(n => n.children[i]) by {
            assert(decreases_to!(n => n.children));
            assert(decreases_to!(n.children => n.children[i]));
        }
    }
    forall|i: int|
        0 <= i < n.children.len() ==> {
            &&& (#[trigger] n.children[i]).path == path_join(n.path, n.children[i].name, sep)
            &&& paths_joined(n.children[i], sep)
        }
}

/// The paths that the components `comps[idx..]` name below a node at
/// `base`: each is the one before joined with its component.
pub open spec fn joined_paths(base: Seq<char>, comps: Seq<Seq<char>>, paths: Seq<Seq<char>>, idx: int, sep: char) -> bool {
    &&& comps.len() == paths.len()
    &&& forall|k: int|
        idx <= k < comps.len() ==> #[trigger] paths[k] == path_join(
            if k == idx { base } else { paths[k - 1] },
            comps[k],
            sep,
        )
}

/// Inserting an entry whose path and name are those that its components
/// give keeps every path joined, and keeps the node's own name and path.
pub proof fn lemma_insert_paths(
    n: FileNode,
    comps: Seq<Seq<char>>,
    paths: Seq<Seq<char>>,
    idx: int,
    e: FileNode,
    sep: char,
)
    requires
        paths_joined(n, sep),
        0 <= idx < comps.len(),
        joined_paths(n.path, comps, paths, idx, sep),
        e.name == comps.last(),
        e.path == paths.last(),
        e.children.len() == 0,
    ensures
        paths_joined(insert_at(n, comps, paths, idx, e), sep),
        insert_at(n, comps, paths, idx, e).path == n.path,
        insert_at(n, comps, paths, idx, e).name == n.name,
    decreases comps.len() - idx,
{
    let r = insert_at(n, comps, paths, idx, e);
    assert(paths[idx] == path_join(n.path, comps[idx], sep));
    if idx == comps.len() - 1 {
        assert(paths_joined(e, sep));
        assert forall|i: int| 0 <= i < r.children.len() implies {
            &&& (#[trigger] r.children[i]).path == path_join(r.path, r.children[i].name, sep)
            &&& paths_joined(r.children[i], sep)
        } by {
            if i < n.children.len() {
                assert(r.children[i] == n.children[i]);
            }
        }
    } else {
        let pos = first_dir_named(n.children, comps[idx]);
        let child = if pos >= 0 { n.children[pos] } else { new_dir_node(comps[idx], paths[idx]) };
        if pos >= 0 {
            assert(is_first_dir_named(n.children, comps[idx], pos));
            assert(child.name == comps[idx]);
            assert(paths_joined(child, sep));
        } else {
            assert(paths_joined(child, sep));
        }
        assert(child.path == paths[idx]);
        assert(joined_paths(child.path, comps, paths, idx + 1, sep));
        lemma_insert_paths(child, comps, paths, idx + 1, e, sep);
        let nc = insert_at(child, comps, paths, idx + 1, e);
        assert forall|i: int| 0 <= i < r.children.len() implies {
            &&& (#[trigger] r.children[i]).path == path_join(r.path, r.children[i].name, sep)
            &&& paths_joined(r.children[i], sep)
        } by {
            if (pos >= 0 && i == pos) || (pos < 0 && i == n.children.len()) {
                assert(r.children[i] == nc);
            } else {
                assert(r.children[i] == n.children[i]);
            }
        }
    }
}

/// Filling in the recursive sizes keeps every name and path.
pub proof fn lemma_recursive_sizes_paths(n: FileNode, sep: char)
    requires
        paths_joined(n, sep),
    ensures
        paths_joined(with_recursive_sizes(n), sep),
        with_recursive_sizes(n).path == n.path,
        with_recursive_sizes(n).name == n.name,
    decreases node_count(n),
{
    if n.is_dir {
        let w = with_recursive_sizes(n);
        assert forall|i: int| 0 <= i < w.children.len() implies {
            &&& (#[trigger] w.children[i]).path == path_join(w.path, w.children[i].name, sep)
            &&& paths_joined(w.children[i], sep)
        } by {
            lemma_forest_node_count_elem(n.children, i);
            lemma_recursive_sizes_paths(n.children[i], sep);
        }
    }
}

/// No two directories among the children of any directory of the tree have
/// the same name.
pub open spec fn dir_names_distinct(n: FileNode) -> bool
    decreases n,
{
    proof {
        assert forall|i: int| 0 <= i < n.children.len() implies decreases_to!(n => n.children[i]) by {
            assert(decreases_to!(n => n.children));
            assert(decreases_to!(n.children => n.children[i]));
        }
    }
    &&& forall|i: int, j: int|
        #![trigger n.children[i], n.children[j]]
        0 <= i < j < n.children.len() && n.children[i].is_dir && n.children[j].is_dir ==> n.children[i].name
            != n.children[j].name
    &&& forall|i: int| 0 <= i < n.children.len() ==> dir_names_distinct(#[trigger] n.children[i])
}

/// Following `comps[idx..]` down from `n`, each component names a directory
/// among the children (the first of that name).
pub open spec fn dir_path_exists(n: FileNode, comps: Seq<Seq<char>>, idx: int) -> bool
    decreases comps.len() - idx,
{
    if idx < 0 || idx >= comps.len() {
        true
    } else {
        let pos = first_dir_named(n.children, comps[idx]);
        pos >= 0 && dir_path_exists(n.children[pos], comps, idx + 1)
    }
}

/// `q` from `idx` on agrees with the start of `comps`, and is no longer.
pub open spec fn prefix_from(q: Seq<Seq<char>>, comps: Seq<Seq<char>>, idx: int) -> bool {
    q.len() <= comps.len() && forall|t: int| idx <= t < q.len() ==> q[t] == comps[t]
}

proof fn lemma_first_dir_named_none(s: Seq<FileNode>, name: Seq<char>)
    requires
        first_dir_named(s, name) < 0,
    ensures
        forall|j: int| 0 <= j < s.len() ==> !dir_named(#[trigger] s[j], name),
{
    assert forall|j: int| 0 <= j < s.len() implies !dir_named(#[trigger] s[j], name) by {
        if dir_named(s[j], name) {
            lemma_first_dir_exists(s, name, j);
        }
    }
}

proof fn lemma_first_dir_exists(s: Seq<FileNode>, name: Seq<char>, j: int)
    requires
        0 <= j < s.len(),
        dir_named(s[j], name),
    ensures
        0 <= first_dir_named(s, name) <= j,
        is_first_dir_named(s, name, first_dir_named(s, name)),
    decreases j,
{
    if exists|t: int| 0 <= t < j && dir_named(#[trigger] s[t], name) {
        let t = choose|t: int| 0 <= t < j && dir_named(#[trigger] s[t], name);
        lemma_first_dir_exists(s, name, t);
    } else {
        assert(is_first_dir_named(s, name, j));
        lemma_first_dir_named(s, name, j);
    }
}

/// Where a name is found in `s.push(x)`, it is found at the same place in
/// `s`, or it is `x`.
proof fn lemma_first_dir_push(s: Seq<FileNode>, x: FileNode, name: Seq<char>)
    ensures
        ({
            let p = first_dir_named(s.push(x), name);
            p >= 0 ==> (p < s.len() && first_dir_named(s, name) == p) || (p == s.len() && dir_named(x, name)
                && first_dir_named(s, name) < 0)
        }),
{
    let t = s.push(x);
    let p = first_dir_named(t, name);
    if p >= 0 {
        assert(is_first_dir_named(t, name, p));
        if p < s.len() {
            assert(t[p] == s[p]);
            assert forall|j: int| 0 <= j < p implies !dir_named(#[trigger] s[j], name) by {
                assert(t[j] == s[j]);
            }
            assert(is_first_dir_named(s, name, p));
            lemma_first_dir_named(s, name, p);
        } else {
            if first_dir_named(s, name) >= 0 {
                let q = first_dir_named(s, name);
                assert(is_first_dir_named(s, name, q));
                assert(t[q] == s[q]);
            }
        }
    }
}

/// Replacing a child by one with the same name and kind moves no name.
proof fn lemma_first_dir_update(s: Seq<FileNode>, k: int, x: FileNode, name: Seq<char>)
    requires
        0 <= k < s.len(),
        x.name == s[k].name,
        x.is_dir == s[k].is_dir,
    ensures
        first_dir_named(s.update(k, x), name) == first_dir_named(s, name),
{
    let t = s.update(k, x);
    assert forall|j: int| 0 <= j < s.len() implies dir_named(#[trigger] t[j], name) == dir_named(s[j], name) by {}
    if first_dir_named(s, name) >= 0 {
        let p = first_dir_named(s, name);
        assert(is_first_dir_named(s, name, p));
        assert(dir_named(t[p], name));
        assert(is_first_dir_named(t, name, p));
        lemma_first_dir_named(t, name, p);
    } else {
        lemma_first_dir_named_none(s, name);
        if first_dir_named(t, name) >= 0 {
            let p = first_dir_named(t, name);
            assert(is_first_dir_named(t, name, p));
            assert(dir_named(s[p], name));
        }
    }
}

/// Inserting keeps a node's name and kind.
pub proof fn lemma_insert_keeps_node(n: FileNode, comps: Seq<Seq<char>>, paths: Seq<Seq<char>>, idx: int, e: FileNode)
    ensures
        same_entry(insert_at(n, comps, paths, idx, e), n),
    decreases comps.len() - idx,
{
}

/// After an insertion, a directory path that exists either existed before
/// or leads along the inserted entry's own path.
pub proof fn lemma_insert_dir_paths(
    n: FileNode,
    comps: Seq<Seq<char>>,
    paths: Seq<Seq<char>>,
    idx: int,
    e: FileNode,
    q: Seq<Seq<char>>,
)
    requires
        0 <= idx < comps.len(),
        e.name == comps.last(),
        e.children.len() == 0,
        dir_path_exists(insert_at(n, comps, paths, idx, e), q, idx),
    ensures
        dir_path_exists(n, q, idx) || prefix_from(q, comps, idx),
    decreases comps.len() - idx,
{
    if idx >= q.len() {
        return;
    }
    let r = insert_at(n, comps, paths, idx, e);
    let p = first_dir_named(r.children, q[idx]);
    assert(p >= 0 && dir_path_exists(r.children[p], q, idx + 1));
    assert(is_first_dir_named(r.children, q[idx], p));
    if idx == comps.len() - 1 {
        lemma_first_dir_push(n.children, e, q[idx]);
        if p == n.children.len() {
            assert(r.children[p] == e);
            if idx + 1 < q.len() {
                assert(first_dir_named(e.children, q[idx + 1]) < 0);
            }
            assert(q.len() == idx + 1);
            assert(q[idx] == comps[idx]);
            assert(prefix_from(q, comps, idx));
        } else {
            assert(r.children[p] == n.children[p]);
            assert(dir_path_exists(n, q, idx));
        }
    } else {
        let pos = first_dir_named(n.children, comps[idx]);
        if pos >= 0 {
            assert(is_first_dir_named(n.children, comps[idx], pos));
            let c = n.children[pos];
            let c2 = insert_at(c, comps, paths, idx + 1, e);
            lemma_insert_keeps_node(c, comps, paths, idx + 1, e);
            lemma_first_dir_update(n.children, pos, c2, q[idx]);
            if p == pos {
                assert(q[idx] == comps[idx]);
                assert(r.children[p] == c2);
                lemma_insert_dir_paths(c, comps, paths, idx + 1, e, q);
                if dir_path_exists(c, q, idx + 1) {
                    assert(dir_path_exists(n, q, idx));
                } else {
                    assert(prefix_from(q, comps, idx));
                }
            } else {
                assert(r.children[p] == n.children[p]);
                assert(dir_path_exists(n, q, idx));
            }
        } else {
            let d = new_dir_node(comps[idx], paths[idx]);
            let d2 = insert_at(d, comps, paths, idx + 1, e);
            lemma_insert_keeps_node(d, comps, paths, idx + 1, e);
            lemma_first_dir_push(n.children, d2, q[idx]);
            if p == n.children.len() {
                assert(r.children[p] == d2);
                assert(q[idx] == comps[idx]);
                lemma_insert_dir_paths(d, comps, paths, idx + 1, e, q);
                if idx + 1 < q.len() {
                    assert(first_dir_named(d.children, q[idx + 1]) < 0);
                    assert(!dir_path_exists(d, q, idx + 1));
                }
                assert(prefix_from(q, comps, idx));
            } else {
                assert(r.children[p] == n.children[p]);
                assert(dir_path_exists(n, q, idx));
            }
        }
    }
}

/// An insertion keeps directory names distinct when the entry, if it is a
/// directory, is not yet in the tree.
pub proof fn lemma_insert_distinct(n: FileNode, comps: Seq<Seq<char>>, paths: Seq<Seq<char>>, idx: int, e: FileNode)
    requires
        0 <= idx < comps.len(),
        dir_names_distinct(n),
        dir_names_distinct(e),
        e.name == comps.last(),
        e.is_dir ==> !dir_path_exists(n, comps, idx),
    ensures
        dir_names_distinct(insert_at(n, comps, paths, idx, e)),
    decreases comps.len() - idx,
{
    let r = insert_at(n, comps, paths, idx, e);
    if idx == comps.len() - 1 {
        if e.is_dir {
            let pos = first_dir_named(n.children, comps[idx]);
            if pos >= 0 {
                assert(dir_path_exists(n.children[pos], comps, idx + 1));
            }
            lemma_first_dir_named_none(n.children, comps[idx]);
        }
        assert forall|i: int, j: int|
            #![trigger r.children[i], r.children[j]]
            0 <= i < j < r.children.len() && r.children[i].is_dir && r.children[j].is_dir implies r.children[i].name
                != r.children[j].name by {
            if j == n.children.len() {
                assert(!dir_named(n.children[i], comps[idx]));
            } else {
                assert(r.children[i] == n.children[i] && r.children[j] == n.children[j]);
            }
        }
        assert forall|i: int| 0 <= i < r.children.len() implies dir_names_distinct(#[trigger] r.children[i]) by {
            if i < n.children.len() {
                assert(r.children[i] == n.children[i]);
            }
        }
    } else {
        let pos = first_dir_named(n.children, comps[idx]);
        if pos >= 0 {
            assert(is_first_dir_named(n.children, comps[idx], pos));
            let c = n.children[pos];
            let c2 = insert_at(c, comps, paths, idx + 1, e);
            lemma_insert_keeps_node(c, comps, paths, idx + 1, e);
            lemma_insert_distinct(c, comps, paths, idx + 1, e);
            assert forall|i: int, j: int|
                #![trigger r.children[i], r.children[j]]
                0 <= i < j < r.children.len() && r.children[i].is_dir && r.children[j].is_dir implies r.children[i].name
                    != r.children[j].name by {
                assert(r.children[i].name == n.children[i].name && r.children[i].is_dir == n.children[i].is_dir);
                assert(r.children[j].name == n.children[j].name && r.children[j].is_dir == n.children[j].is_dir);
                assert(n.children[i].is_dir && n.children[j].is_dir ==> n.children[i].name != n.children[j].name);
            }
            assert forall|i: int| 0 <= i < r.children.len() implies dir_names_distinct(#[trigger] r.children[i]) by {
                if i != pos {
                    assert(r.children[i] == n.children[i]);
                }
            }
        } else {
            lemma_first_dir_named_none(n.children, comps[idx]);
            let d = new_dir_node(comps[idx], paths[idx]);
            let d2 = insert_at(d, comps, paths, idx + 1, e);
            lemma_insert_keeps_node(d, comps, paths, idx + 1, e);
            assert(first_dir_named(d.children, comps[idx + 1]) < 0);
            assert(dir_names_distinct(d));
            lemma_insert_distinct(d, comps, paths, idx + 1, e);
            assert forall|i: int, j: int|
                #![trigger r.children[i], r.children[j]]
                0 <= i < j < r.children.len() && r.children[i].is_dir && r.children[j].is_dir implies r.children[i].name
                    != r.children[j].name by {
                if j == n.children.len() {
                    assert(!dir_named(n.children[i], comps[idx]));
                } else {
                    assert(r.children[i] == n.children[i] && r.children[j] == n.children[j]);
                }
            }
            assert forall|i: int| 0 <= i < r.children.len() implies dir_names_distinct(#[trigger] r.children[i]) by {
                if i < n.children.len() {
                    assert(r.children[i] == n.children[i]);
                }
            }
        }
    }
}

/// Filling in the recursive sizes keeps directory names distinct.
pub proof fn lemma_recursive_sizes_distinct(n: FileNode)
    requires
        dir_names_distinct(n),
    ensures
        dir_names_distinct(with_recursive_sizes(n)),
    decreases node_count(n),
{
    if n.is_dir {
        let w = with_recursive_sizes(n);
        assert forall|i: int| 0 <= i < w.children.len() implies dir_names_distinct(#[trigger] w.children[i]) && w.children[i].name == n.children[i].name && w.children[i].is_dir == n.children[i].is_dir by {
            lemma_forest_node_count_elem(n.children, i);
            lemma_recursive_sizes_distinct(n.children[i]);
        }
        assert forall|i: int, j: int|
            #![trigger w.children[i], w.children[j]]
            0 <= i < j < w.children.len() && w.children[i].is_dir && w.children[j].is_dir implies w.children[i].name
                != w.children[j].name by {
            assert(n.children[i].is_dir && n.children[j].is_dir ==> n.children[i].name != n.children[j].name);
        }
    }
}

/// The node reached from `n` by taking, at each level, the child at the
/// next of `idxs`; `None` where an index is out of range.
pub open spec fn node_at(n: FileNode, idxs: Seq<int>) -> Option<FileNode>
    decreases idxs.len(),
{
    if idxs.len() == 0 {
        Some(n)
    } else if 0 <= idxs[0] < n.children.len() {
        node_at(n.children[idxs[0]], idxs.drop_first())
    } else {
        None
    }
}

/// Two nodes agree on everything but their children and recursive size.
pub open spec fn same_entry(a: FileNode, b: FileNode) -> bool {
    &&& a.name == b.name
    &&& a.path == b.path
    &&& a.is_dir == b.is_dir
    &&& a.size == b.size
    &&& a.category == b.category
    &&& a.last_modified == b.last_modified
}

/// An insertion places the entry itself somewhere in the tree.
pub proof fn lemma_insert_places_entry(
    n: FileNode,
    comps: Seq<Seq<char>>,
    paths: Seq<Seq<char>>,
    idx: int,
    e: FileNode,
)
    requires
        0 <= idx < comps.len(),
    ensures
        exists|idxs: Seq<int>| #[trigger] node_at(insert_at(n, comps, paths, idx, e), idxs) == Some(e),
    decreases comps.len() - idx,
{
    let r = insert_at(n, comps, paths, idx, e);
    if idx == comps.len() - 1 {
        let idxs = seq![n.children.len() as int];
        assert(idxs.drop_first() =~= Seq::<int>::empty());
        assert(r.children[n.children.len() as int] == e);
        assert(node_at(e, idxs.drop_first()) == Some(e));
        assert(node_at(r, idxs) == Some(e));
    } else {
        let pos = first_dir_named(n.children, comps[idx]);
        let (k, c) = if pos >= 0 {
            (pos, n.children[pos])
        } else {
            (n.children.len() as int, new_dir_node(comps[idx], paths[idx]))
        };
        if pos >= 0 {
            assert(is_first_dir_named(n.children, comps[idx], pos));
        }
        lemma_insert_places_entry(c, comps, paths, idx + 1, e);
        let sub = choose|idxs: Seq<int>| #[trigger] node_at(insert_at(c, comps, paths, idx + 1, e), idxs) == Some(e);
        let idxs = seq![k].add(sub);
        assert(idxs.drop_first() =~= sub);
        assert(r.children[k] == insert_at(c, comps, paths, idx + 1, e));
        assert(node_at(r, idxs) == Some(e));
    }
}

/// An insertion keeps every node of the tree where it was, with its own
/// fields.
pub proof fn lemma_insert_keeps_entries(
    n: FileNode,
    comps: Seq<Seq<char>>,
    paths: Seq<Seq<char>>,
    idx: int,
    e: FileNode,
    idxs: Seq<int>,
)
    requires
        node_at(n, idxs) is Some,
    ensures
        node_at(insert_at(n, comps, paths, idx, e), idxs) is Some,
        same_entry(node_at(insert_at(n, comps, paths, idx, e), idxs)->0, node_at(n, idxs)->0),
    decreases idxs.len(),
{
    let r = insert_at(n, comps, paths, idx, e);
    lemma_insert_keeps_node(n, comps, paths, idx, e);
    if idxs.len() > 0 && 0 <= idx < comps.len() {
        let k = idxs[0];
        if idx == comps.len() - 1 {
            assert(r.children[k] == n.children[k]);
        } else {
            let pos = first_dir_named(n.children, comps[idx]);
            if pos >= 0 && k == pos {
                lemma_insert_keeps_entries(n.children[pos], comps, paths, idx + 1, e, idxs.drop_first());
            } else {
                assert(r.children[k] == n.children[k]);
            }
        }
    }
}

/// Filling in the recursive sizes keeps every node where it was, with its
/// own fields.
pub proof fn lemma_recursive_sizes_keep_entries(n: FileNode, idxs: Seq<int>)
    requires
        node_at(n, idxs) is Some,
    ensures
        node_at(with_recursive_sizes(n), idxs) is Some,
        same_entry(node_at(with_recursive_sizes(n), idxs)->0, node_at(n, idxs)->0),
    decreases idxs.len(),
{
    if idxs.len() > 0 && n.is_dir {
        let k = idxs[0];
        lemma_recursive_sizes_keep_entries(n.children[k], idxs.drop_first());
    }
}

} // verus!
