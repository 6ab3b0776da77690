//! The state of the project manager and what each user action and each
//! background result does to it.  The work that an action starts (a scan, a
//! search, saving the configuration, loading a preview) is done by the
//! caller, which the action tells what to do.
use vstd::prelude::*;
use crate::models::{ProjectInfo, ProjectView, AutoScanProgress, SortBy, PreviewContent, project_views};
use crate::scan::ScanResult;
use crate::text::{
    spec_trim, trim, split_char, split_pieces, str_eq, concat2, decimal, decimal_string, append_str, chars_of,
    string_from_chars,
};
use crate::tree::{FileEntry, string_views};
use crate::discovery::clone_project;

verus! {

// ------------------------------------------------------------------
// Tags
// ------------------------------------------------------------------

/// The tags that a comma-separated list gives: each piece trimmed, empty
/// pieces left out.
pub open spec fn tags_of_pieces(pieces: Seq<Seq<char>>) -> Seq<Seq<char>>
    decreases pieces.len(),
{
    if pieces.len() == 0 {
        Seq::empty()
    } else {
        let prev = tags_of_pieces(pieces.drop_last());
        let t = spec_trim(pieces.last());
        if t.len() > 0 {
            prev.push(t)
        } else {
            prev
        }
    }
}

/// The tags in a comma-separated list.
pub open spec fn parsed_tags(s: Seq<char>) -> Seq<Seq<char>> {
    tags_of_pieces(split_pieces(s, ','))
}

/// Splits a comma-separated list of tags, trimming each and leaving out the
/// empty ones.
pub fn parse_tags(s: &str) -> (tags: Vec<String>)
    ensures
        string_views(tags@) == parsed_tags(s@),
{
    let pieces = split_char(s, ',');
    let ghost pv = string_views(pieces@);
    let mut tags: Vec<String> = Vec::new();
    let mut i: usize = 0;
    while i < pieces.len()
        invariant
            i <= pieces@.len(),
            pv == string_views(pieces@),
            string_views(tags@) == tags_of_pieces(pv.take(i as int)),
        decreases pieces@.len() - i,
    {
        proof {
            assert(pv.take(i as int + 1).drop_last() =~= pv.take(i as int));
        }
        let t = trim(pieces[i].as_str());
        let ghost before = tags@;
        proof {
            assert(pv.take(i as int + 1).last() == pieces@[i as int]@);
        }
        if !t.as_str().is_empty() {
            tags.push(t);
            proof {
                assert(string_views(tags@) =~= string_views(before).push(spec_trim(pieces@[i as int]@)));
            }
        }
        i = i + 1;
    }
    proof {
        assert(pv.take(i as int) =~= pv);
    }
    tags
}

// ------------------------------------------------------------------
// The state
// ------------------------------------------------------------------

/// The state of the project manager that its actions decide on.
pub struct App {
    pub projects: Vec<ProjectInfo>,
    pub selected_project_index: Option<usize>,
    pub scan_result: Option<ScanResult>,
    pub is_scanning: bool,
    /// Paths of the directories shown expanded in the file tree (no repeats).
    pub expanded_dirs: Vec<String>,
    pub sort_by: SortBy,
    pub sort_descending: bool,
    pub preview_path: Option<String>,
    pub preview_content: PreviewContent,
    pub search_query: String,
    pub search_results: Vec<String>,
    pub pending_search: bool,
    pub is_searching: bool,
    pub show_add_dialog: bool,
    pub new_project_path: String,
    pub new_project_name: String,
    pub new_project_desc: String,
    pub new_project_tags: String,
    pub editing_project: Option<usize>,
    pub status_message: String,
    pub auto_discovered: Vec<ProjectInfo>,
    pub auto_scanning_drive: String,
    pub is_auto_scanning: bool,
}

/// The value of an `App`.
#[verifier::ext_equal]
pub struct AppView {
    pub projects: Seq<ProjectView>,
    pub selected_project_index: Option<usize>,
    pub scan_result: Option<ScanResult>,
    pub is_scanning: bool,
    pub expanded_dirs: Set<Seq<char>>,
    pub sort_by: SortBy,
    pub sort_descending: bool,
    pub preview_path: Option<Seq<char>>,
    pub preview_content: PreviewContent,
    pub search_query: Seq<char>,
    pub search_results: Seq<Seq<char>>,
    pub pending_search: bool,
    pub is_searching: bool,
    pub show_add_dialog: bool,
    pub new_project_path: Seq<char>,
    pub new_project_name: Seq<char>,
    pub new_project_desc: Seq<char>,
    pub new_project_tags: Seq<char>,
    pub editing_project: Option<usize>,
    pub status_message: Seq<char>,
    pub auto_discovered: Seq<ProjectView>,
    pub auto_scanning_drive: Seq<char>,
    pub is_auto_scanning: bool,
}

pub open spec fn opt_view(o: Option<String>) -> Option<Seq<char>> {
    match o {
        Some(s) => Some(s@),
        None => None,
    }
}

impl View for App {
    type V = AppView;

    open spec fn view(&self) -> AppView {
        AppView {
            projects: project_views(self.projects@),
            selected_project_index: self.selected_project_index,
            scan_result: self.scan_result,
            is_scanning: self.is_scanning,
            expanded_dirs: string_views(self.expanded_dirs@).to_set(),
            sort_by: self.sort_by,
            sort_descending: self.sort_descending,
            preview_path: opt_view(self.preview_path),
            preview_content: self.preview_content,
            search_query: self.search_query@,
            search_results: string_views(self.search_results@),
            pending_search: self.pending_search,
            is_searching: self.is_searching,
            show_add_dialog: self.show_add_dialog,
            new_project_path: self.new_project_path@,
            new_project_name: self.new_project_name@,
            new_project_desc: self.new_project_desc@,
            new_project_tags: self.new_project_tags@,
            editing_project: self.editing_project,
            status_message: self.status_message@,
            auto_discovered: project_views(self.auto_discovered@),
            auto_scanning_drive: self.auto_scanning_drive@,
            is_auto_scanning: self.is_auto_scanning,
        }
    }
}

/// The state right after a project is selected: nothing previewed, no search,
/// nothing expanded, no scan result.
pub open spec fn selected_view(v: AppView, index: usize) -> AppView {
    AppView {
        selected_project_index: Some(index),
        preview_content: PreviewContent::Empty,
        preview_path: None,
        search_results: Seq::empty(),
        search_query: Seq::empty(),
        expanded_dirs: Set::empty(),
        scan_result: None,
        ..v
    }
}

/// What starting a scan of project `index` does: when there is such a
/// project, a scan runs.
pub open spec fn scan_started_view(v: AppView, index: usize) -> AppView {
    AppView { is_scanning: if index < v.projects.len() { true } else { v.is_scanning }, ..v }
}

/// The path that starting a scan of project `index` hands the caller.
pub open spec fn scan_path(v: AppView, index: usize) -> Option<Seq<char>> {
    if index < v.projects.len() {
        Some(v.projects[index as int].path)
    } else {
        None
    }
}

/// The selection, if any, names a project.
pub open spec fn selection_valid(v: AppView) -> bool {
    match v.selected_project_index {
        Some(i) => i < v.projects.len(),
        None => true,
    }
}

/// No two discovered projects share a path, and none has the path of a kept
/// project.
pub open spec fn discovered_fresh(v: AppView) -> bool {
    &&& forall|i: int, j: int|
        0 <= i < j < v.auto_discovered.len() ==> #[trigger] v.auto_discovered[i].path
            != #[trigger] v.auto_discovered[j].path
    &&& forall|i: int, k: int|
        0 <= i < v.auto_discovered.len() && 0 <= k < v.projects.len() ==> #[trigger] v.auto_discovered[i].path
            != #[trigger] v.projects[k].path
}

/// Paths of the directories among the first `k` children of a tree's root.
pub open spec fn first_level_dirs(n: crate::tree::FileNode, k: int) -> Set<Seq<char>> {
    Set::new(|p: Seq<char>| exists|i: int| 0 <= i < k && i < n.children.len() && (#[trigger] n.children[i]).is_dir && n.children[i].path == p)
}

/// The value of a project that the user adds.
pub open spec fn added_project(v: AppView, now: Seq<char>) -> ProjectView {
    ProjectView {
        name: spec_trim(v.new_project_name),
        path: spec_trim(v.new_project_path),
        description: spec_trim(v.new_project_desc),
        tags: parsed_tags(v.new_project_tags),
        added_date: now,
        auto_discovered: false,
        project_type: Seq::empty(),
    }
}

/// The state after a project was added at the end and saved: it is selected
/// and scanned.
pub open spec fn last_selected_view(v: AppView) -> AppView {
    scan_started_view(selected_view(v, (v.projects.len() - 1) as usize), (v.projects.len() - 1) as usize)
}

/// The value of a project after an edit.
pub open spec fn edited_project(
    p: ProjectView,
    name: Seq<char>,
    desc: Seq<char>,
    tags: Seq<char>,
    path: Seq<char>,
) -> ProjectView {
    ProjectView {
        name: spec_trim(name),
        description: spec_trim(desc),
        path: spec_trim(path),
        tags: parsed_tags(tags),
        ..p
    }
}

/// The state after the directory at `path` was folded (if it was expanded)
/// or expanded (if it was not).
pub open spec fn expanded_toggled(v: AppView, path: Seq<char>) -> AppView {
    if v.expanded_dirs.contains(path) {
        AppView { expanded_dirs: v.expanded_dirs.remove(path), ..v }
    } else {
        AppView { expanded_dirs: v.expanded_dirs.insert(path), ..v }
    }
}

/// Law: toggling the same directory twice gives the state back.
pub proof fn law_toggle_twice_restores(v: AppView, path: Seq<char>)
    ensures
        expanded_toggled(expanded_toggled(v, path), path) == v,
{
    if v.expanded_dirs.contains(path) {
        assert(v.expanded_dirs.remove(path).insert(path) =~= v.expanded_dirs);
    } else {
        assert(v.expanded_dirs.insert(path).remove(path) =~= v.expanded_dirs);
    }
}

/// Whether some project of `s` has the path `path`.
/// `p` is a root on its own: empty, or a drive such as "C:".
pub open spec fn is_root_prefix(p: Seq<char>) -> bool {
    p.len() == 0 || (p.len() == 2 && p[1] == ':')
}

/// The directory that ends at the separator at `k` of a path: the text
/// before it, or, where that is a root on its own, the root with the
/// separator.
pub open spec fn parent_at(path: Seq<char>, k: int) -> Seq<char> {
    if is_root_prefix(path.take(k)) {
        path.take(k + 1)
    } else {
        path.take(k)
    }
}

/// The directories that end at the separators before `n` of a path that
/// are not its last character.
pub open spec fn ancestors_before(path: Seq<char>, separator: char, n: int) -> Set<Seq<char>> {
    Set::new(|p: Seq<char>| exists|k: int| 0 <= k < n && k + 1 < path.len() && path[k] == separator && p == #[trigger] parent_at(path, k))
}

/// The directories that hold the entry at `path`: one for each separator
/// but a last one.
pub open spec fn ancestor_dirs(path: Seq<char>, separator: char) -> Set<Seq<char>> {
    ancestors_before(path, separator, path.len() as int)
}

pub open spec fn has_path(s: Seq<ProjectView>, path: Seq<char>) -> bool {
    exists|i: int| 0 <= i < s.len() && (#[trigger] s[i]).path == path
}

/// An empty string.
fn empty() -> (s: String)
    ensures
        s@ == Seq::<char>::empty(),
{
    String::new()
}

impl App {
    /// The state at start-up, with the projects of the configuration.
    pub fn new(projects: Vec<ProjectInfo>) -> (app: App)
        ensures
            app@ == (AppView {
                projects: project_views(projects@),
                selected_project_index: None,
                scan_result: None,
                is_scanning: false,
                expanded_dirs: Set::empty(),
                sort_by: SortBy::Name,
                sort_descending: false,
                preview_path: None,
                preview_content: PreviewContent::Empty,
                search_query: Seq::empty(),
                search_results: Seq::empty(),
                pending_search: false,
                is_searching: false,
                show_add_dialog: false,
                new_project_path: Seq::empty(),
                new_project_name: Seq::empty(),
                new_project_desc: Seq::empty(),
                new_project_tags: Seq::empty(),
                editing_project: None,
                status_message: Seq::empty(),
                auto_discovered: Seq::empty(),
                auto_scanning_drive: Seq::empty(),
                is_auto_scanning: false,
            }),
    {
        let app = App {
            projects,
            selected_project_index: None,
            scan_result: None,
            is_scanning: false,
            expanded_dirs: Vec::new(),
            sort_by: SortBy::Name,
            sort_descending: false,
            preview_path: None,
            preview_content: PreviewContent::Empty,
            search_query: empty(),
            search_results: Vec::new(),
            pending_search: false,
            is_searching: false,
            show_add_dialog: false,
            new_project_path: empty(),
            new_project_name: empty(),
            new_project_desc: empty(),
            new_project_tags: empty(),
            editing_project: None,
            status_message: empty(),
            auto_discovered: Vec::new(),
            auto_scanning_drive: empty(),
            is_auto_scanning: false,
        };
        proof {
            assert(string_views(app.expanded_dirs@).to_set() =~= Set::<Seq<char>>::empty());
            assert(string_views(app.search_results@) =~= Seq::<Seq<char>>::empty());
            assert(project_views(app.auto_discovered@) =~= Seq::<ProjectView>::empty());
        }
        app
    }

    fn reset_for_selection(&mut self, index: usize)
        ensures
            final(self)@ == selected_view(old(self)@, index),
    {
        self.selected_project_index = Some(index);
        self.preview_content = PreviewContent::Empty;
        self.preview_path = None;
        self.search_results = Vec::new();
        self.search_query = empty();
        self.expanded_dirs = Vec::new();
        self.scan_result = None;
        proof {
            assert(string_views(self.expanded_dirs@).to_set() =~= Set::<Seq<char>>::empty());
            assert(string_views(self.search_results@) =~= Seq::<Seq<char>>::empty());
            assert(self@ =~= selected_view(old(self)@, index));
        }
    }

    fn start_scan(&mut self, index: usize) -> (path: Option<String>)
        ensures
            final(self)@ == scan_started_view(old(self)@, index),
            opt_view(path) == scan_path(old(self)@, index),
    {
        if index >= self.projects.len() {
            return None;
        }
        self.is_scanning = true;
        let p = self.projects[index].path.clone();
        proof {
            assert(self@ =~= scan_started_view(old(self)@, index));
        }
        Some(p)
    }

    /// Selects a project and starts scanning it; the path to scan is
    /// returned (none where the project was already selected or does not
    /// exist).
    pub fn select_project(&mut self, index: usize) -> (path: Option<String>)
        ensures
            old(self).selected_project_index == Some(index) ==> final(self)@ == old(self)@ && path
                is None,
            old(self).selected_project_index != Some(index) ==> {
                &&& final(self)@ == scan_started_view(selected_view(old(self)@, index), index)
                &&& opt_view(path) == scan_path(old(self)@, index)
            },
    {
        if self.selected_project_index == Some(index) {
            return None;
        }
        self.reset_for_selection(index);
        self.start_scan(index)
    }

    /// Drops the scan result and the preview and scans the selected project
    /// again; the path to scan is returned.
    pub fn refresh_scan(&mut self) -> (path: Option<String>)
        ensures
            ({
                let cleared = AppView {
                    scan_result: None,
                    preview_content: PreviewContent::Empty,
                    preview_path: None,
                    ..old(self)@
                };
                match old(self).selected_project_index {
                    Some(i) => final(self)@ == scan_started_view(cleared, i) && opt_view(path)
                        == scan_path(old(self)@, i),
                    None => final(self)@ == cleared && path is None,
                }
            }),
    {
        self.scan_result = None;
        self.preview_content = PreviewContent::Empty;
        self.preview_path = None;
        proof {
            assert(self@ =~= AppView {
                scan_result: None,
                preview_content: PreviewContent::Empty,
                preview_path: None,
                ..old(self)@
            });
        }
        match self.selected_project_index {
            Some(idx) => self.start_scan(idx),
            None => None,
        }
    }

    /// Whether the directory at `path` is shown expanded.
    pub fn is_expanded(&self, path: &str) -> (r: bool)
        ensures
            r == self@.expanded_dirs.contains(path@),
    {
        let mut i: usize = 0;
        while i < self.expanded_dirs.len()
            invariant
                i <= self.expanded_dirs@.len(),
                forall|j: int| 0 <= j < i ==> self.expanded_dirs@[j]@ != path@,
            decreases self.expanded_dirs@.len() - i,
        {
            if str_eq(self.expanded_dirs[i].as_str(), path) {
                proof {
                    assert(string_views(self.expanded_dirs@)[i as int] == path@);
                }
                return true;
            }
            i = i + 1;
        }
        proof {
            if string_views(self.expanded_dirs@).to_set().contains(path@) {
                let j = choose|j: int| 0 <= j < string_views(self.expanded_dirs@).len() && string_views(self.expanded_dirs@)[j] == path@;
                assert(self.expanded_dirs@[j]@ == path@);
            }
        }
        false
    }

    /// Shows the directory at `path` expanded.
    pub fn expand(&mut self, path: &str)
        ensures
            final(self)@ == (AppView { expanded_dirs: old(self)@.expanded_dirs.insert(path@), ..old(self)@ }),
    {
        if !self.is_expanded(path) {
            let ghost before = self.expanded_dirs@;
            self.expanded_dirs.push(String::from_str(path));
            proof {
                assert(string_views(self.expanded_dirs@) =~= string_views(before).push(path@));
                string_views(before).lemma_push_to_set_commute(path@);
                assert(string_views(self.expanded_dirs@).to_set() =~= string_views(before).to_set().insert(path@));
            }
        } else {
            assert(old(self)@.expanded_dirs.insert(path@) =~= old(self)@.expanded_dirs);
        }
        proof {
            assert(self@ =~= AppView { expanded_dirs: old(self)@.expanded_dirs.insert(path@), ..old(self)@ });
        }
    }

    /// Shows expanded every directory that holds the file or directory at
    /// `path`, as far up as the root (see `ancestor_dirs`), so that the
    /// entry can be seen in the tree; the other fields stay as they are.
    pub fn expand_ancestors(&mut self, path: &str, separator: char)
        ensures
            final(self)@ == (AppView {
                expanded_dirs: old(self)@.expanded_dirs.union(ancestor_dirs(path@, separator)),
                ..old(self)@
            }),
    {
        let cs = chars_of(path);
        let mut k: usize = 0;
        proof {
            assert(ancestors_before(cs@, separator, 0) =~= Set::<Seq<char>>::empty());
            assert(old(self)@.expanded_dirs.union(Set::empty()) =~= old(self)@.expanded_dirs);
            assert(self@ =~= AppView { expanded_dirs: old(self)@.expanded_dirs.union(Set::empty()), ..old(self)@ });
        }
        while k < cs.len()
            invariant
                k <= cs@.len(),
                cs@ == path@,
                self@ == (AppView {
                    expanded_dirs: old(self)@.expanded_dirs.union(ancestors_before(cs@, separator, k as int)),
                    ..old(self)@
                }),
            decreases cs@.len() - k,
        {
            let ghost mid = self@;
            if cs[k] == separator && k + 1 < cs.len() {
                let end: usize = if k == 0 || (k == 2 && cs[1] == ':') {
                    k + 1
                } else {
                    k
                };
                let parent = string_from_chars(&cs, 0, end);
                assert(parent@ == parent_at(cs@, k as int));
                self.expand(parent.as_str());
                proof {
                    assert(ancestors_before(cs@, separator, k as int + 1) =~= ancestors_before(
                        cs@,
                        separator,
                        k as int,
                    ).insert(parent@));
                    assert(self@.expanded_dirs =~= old(self)@.expanded_dirs.union(
                        ancestors_before(cs@, separator, k as int + 1),
                    ));
                }
            } else {
                proof {
                    assert(ancestors_before(cs@, separator, k as int + 1) =~= ancestors_before(
                        cs@,
                        separator,
                        k as int,
                    ));
                }
            }
            proof {
                assert(self@ =~= AppView {
                    expanded_dirs: old(self)@.expanded_dirs.union(ancestors_before(cs@, separator, k as int + 1)),
                    ..old(self)@
                });
            }
            k = k + 1;
        }
        assert(ancestors_before(cs@, separator, cs@.len() as int) =~= ancestor_dirs(path@, separator));
    }

    /// The search query was edited: a search is due.
    pub fn on_query_edited(&mut self)
        ensures
            final(self)@ == (AppView { pending_search: true, ..old(self)@ }),
    {
        self.pending_search = true;
    }

    /// Where the query has been emptied, the results of an earlier search
    /// are dropped and no search is due; otherwise nothing changes.
    pub fn drop_results_for_empty_query(&mut self)
        ensures
            old(self)@.search_query.len() == 0 && old(self)@.search_results.len() > 0 ==> final(self)@ == (AppView {
                search_results: Seq::empty(),
                pending_search: false,
                ..old(self)@
            }),
            !(old(self)@.search_query.len() == 0 && old(self)@.search_results.len() > 0) ==> final(self)@ == old(self)@,
    {
        if self.search_query.as_str().is_empty() && self.search_results.len() > 0 {
            self.search_results = Vec::new();
            self.pending_search = false;
            assert(string_views(self.search_results@) =~= Seq::<Seq<char>>::empty());
        }
    }

    /// Clears the search: the query and its results are emptied.
    pub fn clear_search(&mut self)
        ensures
            final(self)@ == (AppView { search_query: Seq::empty(), search_results: Seq::empty(), ..old(self)@ }),
    {
        self.search_query = String::new();
        self.search_results = Vec::new();
        assert(string_views(self.search_results@) =~= Seq::<Seq<char>>::empty());
    }

    /// Folds the directory at `path` if it is expanded, expands it otherwise.
    pub fn toggle_expanded(&mut self, path: &str)
        ensures
            final(self)@ == expanded_toggled(old(self)@, path@),
    {
        if self.is_expanded(path) {
            let ghost before = self.expanded_dirs@;
            let mut kept: Vec<String> = Vec::new();
            let mut i: usize = 0;
            while i < self.expanded_dirs.len()
                invariant
                    i <= self.expanded_dirs@.len(),
                    self.expanded_dirs@ == before,
                    forall|j: int| 0 <= j < kept@.len() ==> #[trigger] kept@[j]@ != path@,
                    forall|j: int| 0 <= j < kept@.len() ==> string_views(before).contains(#[trigger] kept@[j]@),
                    forall|j: int| 0 <= j < i && before[j]@ != path@ ==> #[trigger] string_views(kept@).contains(before[j]@),
                decreases self.expanded_dirs@.len() - i,
            {
                if !str_eq(self.expanded_dirs[i].as_str(), path) {
                    let ghost kb = kept@;
                    kept.push(self.expanded_dirs[i].clone());
                    proof {
                        assert(string_views(kept@)[kept@.len() - 1] == before[i as int]@);
                        assert forall|j: int| 0 <= j < i && before[j]@ != path@ implies #[trigger] string_views(kept@).contains(before[j]@) by {
                            assert(string_views(kb).contains(before[j]@));
                            let m = choose|m: int| 0 <= m < string_views(kb).len() && string_views(kb)[m] == before[j]@;
                            assert(string_views(kept@)[m] == before[j]@);
                        }
                        assert forall|j: int| 0 <= j < kept@.len() implies string_views(before).contains(#[trigger] kept@[j]@) by {
                            if j < kb.len() {
                                assert(kept@[j] == kb[j]);
                            } else {
                                assert(string_views(before)[i as int] == kept@[j]@);
                            }
                        }
                    }
                }
                i = i + 1;
            }
            self.expanded_dirs = kept;
            proof {
                let a = string_views(self.expanded_dirs@).to_set();
                let b = string_views(before).to_set().remove(path@);
                assert forall|p: Seq<char>| a.contains(p) <==> b.contains(p) by {
                    if a.contains(p) {
                        let j = choose|j: int| 0 <= j < string_views(self.expanded_dirs@).len() && string_views(self.expanded_dirs@)[j] == p;
                        assert(self.expanded_dirs@[j]@ == p);
                    }
                    if b.contains(p) {
                        let j = choose|j: int| 0 <= j < string_views(before).len() && string_views(before)[j] == p;
                        assert(before[j]@ == p);
                        assert(string_views(self.expanded_dirs@).contains(before[j]@));
                    }
                }
                assert(a =~= b);
                assert(self@ =~= AppView { expanded_dirs: old(self)@.expanded_dirs.remove(path@), ..old(self)@ });
            }
        } else {
            self.expand(path);
        }
    }

    /// Takes the outcome of a scan: a result is kept, with the directories
    /// right below its root expanded; an error is reported.
    pub fn on_scan_finished(&mut self, result: Result<ScanResult, String>)
        ensures
            result matches Ok(r) ==> final(self)@ == (AppView {
                expanded_dirs: old(self)@.expanded_dirs.union(first_level_dirs(r.root@, r.root@.children.len() as int)),
                scan_result: Some(r),
                is_scanning: false,
                status_message: "扫描完成"@,
                ..old(self)@
            }),
            result matches Err(e) ==> final(self)@ == (AppView {
                is_scanning: false,
                status_message: "扫描失败: "@ + e@,
                ..old(self)@
            }),
    {
        match result {
            Ok(r) => {
                let ghost n = r.root@;
                let ghost v0 = self@;
                let mut i: usize = 0;
                while i < r.root.children.len()
                    invariant
                        i <= r.root.children@.len(),
                        n == r.root@,
                        n.children.len() == r.root.children@.len(),
                        self@ == (AppView { expanded_dirs: v0.expanded_dirs.union(first_level_dirs(n, i as int)), ..v0 }),
                    decreases r.root.children@.len() - i,
                {
                    let ghost before = self@;
                    proof {
                        assert(n.children[i as int] == crate::tree::node_of(r.root.children@[i as int]));
                    }
                    if r.root.children[i].is_dir {
                        self.expand(r.root.children[i].path.as_str());
                        proof {
                            assert(v0.expanded_dirs.union(first_level_dirs(n, i as int)).insert(n.children[i as int].path)
                                =~= v0.expanded_dirs.union(first_level_dirs(n, i as int + 1)));
                        }
                    } else {
                        proof {
                            assert(first_level_dirs(n, i as int) =~= first_level_dirs(n, i as int + 1));
                        }
                    }
                    i = i + 1;
                }
                self.scan_result = Some(r);
                self.is_scanning = false;
                self.status_message = String::from_str("扫描完成");
                proof {
                    assert(self@ =~= AppView {
                        expanded_dirs: v0.expanded_dirs.union(first_level_dirs(n, n.children.len() as int)),
                        scan_result: Some(r),
                        is_scanning: false,
                        status_message: "扫描完成"@,
                        ..v0
                    });
                }
            },
            Err(e) => {
                self.is_scanning = false;
                self.status_message = concat2("扫描失败: ", e.as_str());
                proof {
                    assert(self@ =~= AppView { is_scanning: false, status_message: "扫描失败: "@ + e@, ..old(self)@ });
                }
            },
        }
    }

    /// Takes the end of a scan that gave no outcome.
    pub fn on_scan_disconnected(&mut self)
        ensures
            final(self)@ == (AppView {
                is_scanning: false,
                status_message: "扫描失败，请检查目录是否可访问"@,
                ..old(self)@
            }),
    {
        self.is_scanning = false;
        self.status_message = String::from_str("扫描失败，请检查目录是否可访问");
        proof {
            assert(self@ =~= AppView {
                is_scanning: false,
                status_message: "扫描失败，请检查目录是否可访问"@,
                ..old(self)@
            });
        }
    }

    /// Takes the results of a search.
    pub fn on_search_results(&mut self, results: Vec<String>)
        ensures
            final(self)@ == (AppView { search_results: string_views(results@), is_searching: false, ..old(self)@ }),
    {
        self.search_results = results;
        self.is_searching = false;
        proof {
            assert(self@ =~= AppView { search_results: string_views(results@), is_searching: false, ..old(self)@ });
        }
    }

    /// Takes the end of a search that gave no results.
    pub fn on_search_disconnected(&mut self)
        ensures
            final(self)@ == (AppView { is_searching: false, ..old(self)@ }),
    {
        self.is_searching = false;
        proof {
            assert(self@ =~= AppView { is_searching: false, ..old(self)@ });
        }
    }

    /// Reports that saving the configuration failed.
    pub fn on_save_failed(&mut self, err: &str)
        ensures
            final(self)@ == (AppView { status_message: "配置保存失败: "@ + err@, ..old(self)@ }),
    {
        self.status_message = concat2("配置保存失败: ", err);
        proof {
            assert(self@ =~= AppView { status_message: "配置保存失败: "@ + err@, ..old(self)@ });
        }
    }

    /// Adds the project described by the add dialog, dated `now`.  Returns
    /// whether the configuration is to be saved; a path or name that is empty
    /// once trimmed is refused with a message instead.
    pub fn add_project(&mut self, now: String) -> (save: bool)
        ensures
            ({
                let v = old(self)@;
                if spec_trim(v.new_project_path).len() == 0 || spec_trim(v.new_project_name).len() == 0 {
                    !save && final(self)@ == (AppView { status_message: "路径和名称不能为空"@, ..v })
                } else {
                    save && final(self)@ == (AppView { projects: v.projects.push(added_project(v, now@)), ..v })
                }
            }),
    {
        let path = trim(self.new_project_path.as_str());
        let name = trim(self.new_project_name.as_str());
        if path.as_str().is_empty() || name.as_str().is_empty() {
            self.status_message = String::from_str("路径和名称不能为空");
            proof {
                assert(self@ =~= AppView { status_message: "路径和名称不能为空"@, ..old(self)@ });
            }
            return false;
        }
        let project = ProjectInfo {
            name: name,
            path: path,
            description: trim(self.new_project_desc.as_str()),
            tags: parse_tags(self.new_project_tags.as_str()),
            added_date: now,
            auto_discovered: false,
            project_type: String::new(),
        };
        let ghost before = self.projects@;
        proof {
            assert(project@ =~= added_project(old(self)@, now@));
        }
        self.projects.push(project);
        proof {
            assert(project_views(self.projects@) =~= project_views(before).push(added_project(old(self)@, now@)));
            assert(self@ =~= AppView { projects: old(self)@.projects.push(added_project(old(self)@, now@)), ..old(self)@ });
        }
        true
    }

    /// After a project was added and the configuration saved: the dialog
    /// closes and the new project is selected and scanned.
    pub fn after_project_added(&mut self) -> (path: Option<String>)
        requires
            old(self).projects@.len() > 0,
        ensures
            ({
                let v = AppView { show_add_dialog: false, ..old(self)@ };
                &&& final(self)@ == (AppView { status_message: "项目已添加"@, ..last_selected_view(v) })
                &&& opt_view(path) == Some(old(self)@.projects.last().path)
            }),
    {
        self.show_add_dialog = false;
        let index = self.projects.len() - 1;
        self.reset_for_selection(index);
        let path = self.start_scan(index);
        self.status_message = String::from_str("项目已添加");
        proof {
            let v = AppView { show_add_dialog: false, ..old(self)@ };
            assert(self@ =~= AppView { status_message: "项目已添加"@, ..last_selected_view(v) });
        }
        path
    }

    /// Removes project `index`; the selection follows the project it named,
    /// and is dropped with its scan and preview when that project goes.
    /// Returns whether the configuration is to be saved.
    pub fn remove_project(&mut self, index: usize) -> (save: bool)
        ensures
            ({
                let v = old(self)@;
                if index >= v.projects.len() {
                    !save && final(self)@ == v
                } else {
                    &&& save
                    &&& final(self)@.projects == v.projects.remove(index as int)
                    &&& if v.selected_project_index == Some(index) {
                        final(self)@ == (AppView {
                            projects: v.projects.remove(index as int),
                            selected_project_index: None,
                            scan_result: None,
                            preview_content: PreviewContent::Empty,
                            preview_path: None,
                            ..v
                        })
                    } else {
                        final(self)@ == (AppView {
                            projects: v.projects.remove(index as int),
                            selected_project_index: match v.selected_project_index {
                                Some(s) => if s > index { Some((s - 1) as usize) } else { Some(s) },
                                None => None,
                            },
                            ..v
                        })
                    }
                }
            }),
            // the selection keeps naming the same project
            ({
                let v = old(self)@;
                let w = final(self)@;
                (v.selected_project_index is Some && v.selected_project_index->0 != index
                    && v.selected_project_index->0 < v.projects.len()) ==> {
                    &&& w.selected_project_index is Some
                    &&& w.selected_project_index->0 < w.projects.len()
                    &&& w.projects[w.selected_project_index->0 as int]
                        == v.projects[v.selected_project_index->0 as int]
                }
            }),
            selection_valid(old(self)@) ==> selection_valid(final(self)@),
    {
        if index >= self.projects.len() {
            return false;
        }
        let ghost before = self.projects@;
        self.projects.remove(index);
        proof {
            assert(project_views(self.projects@) =~= project_views(before).remove(index as int));
        }
        if self.selected_project_index == Some(index) {
            self.selected_project_index = None;
            self.scan_result = None;
            self.preview_content = PreviewContent::Empty;
            self.preview_path = None;
        } else {
            match self.selected_project_index {
                Some(sel) => {
                    if sel > index {
                        self.selected_project_index = Some(sel - 1);
                    }
                },
                None => {},
            }
        }
        proof {
            let v = old(self)@;
            if v.selected_project_index == Some(index) {
                assert(self@ =~= AppView {
                    projects: v.projects.remove(index as int),
                    selected_project_index: None,
                    scan_result: None,
                    preview_content: PreviewContent::Empty,
                    preview_path: None,
                    ..v
                });
            } else {
                assert(self@ =~= AppView {
                    projects: v.projects.remove(index as int),
                    selected_project_index: match v.selected_project_index {
                        Some(s) => if s > index { Some((s - 1) as usize) } else { Some(s) },
                        None => None,
                    },
                    ..v
                });
            }
        }
        true
    }

    /// After a project was removed and the configuration saved.
    pub fn after_project_removed(&mut self)
        ensures
            final(self)@ == (AppView { status_message: "项目已删除"@, ..old(self)@ }),
    {
        self.status_message = String::from_str("项目已删除");
        proof {
            assert(self@ =~= AppView { status_message: "项目已删除"@, ..old(self)@ });
        }
    }

    /// Opens the editor on project `index`.
    pub fn start_editing_project(&mut self, index: usize)
        ensures
            final(self)@ == (AppView { editing_project: Some(index), ..old(self)@ }),
    {
        self.editing_project = Some(index);
        proof {
            assert(self@ =~= AppView { editing_project: Some(index), ..old(self)@ });
        }
    }

    /// Stores the edited fields of project `index` (trimmed; the tags split at
    /// commas).  Returns whether the configuration is to be saved; for an index
    /// with no project the editor just closes.
    pub fn save_edited_project(
        &mut self,
        index: usize,
        name: String,
        desc: String,
        tags: String,
        path: String,
    ) -> (save: bool)
        ensures
            ({
                let v = old(self)@;
                if index < v.projects.len() {
                    save && final(self)@ == (AppView {
                        projects: v.projects.update(
                            index as int,
                            edited_project(v.projects[index as int], name@, desc@, tags@, path@),
                        ),
                        ..v
                    })
                } else {
                    !save && final(self)@ == (AppView { editing_project: None, ..v })
                }
            }),
            index < old(self).projects@.len() ==> {
                let p = final(self).projects@[index as int];
                let q = old(self).projects@[index as int];
                &&& final(self).projects@.len() == old(self).projects@.len()
                &&& p.name@ == spec_trim(name@)
                &&& p.description@ == spec_trim(desc@)
                &&& p.path@ == spec_trim(path@)
                &&& string_views(p.tags@) == parsed_tags(tags@)
                &&& p.added_date == q.added_date
                &&& p.auto_discovered == q.auto_discovered
                &&& p.project_type == q.project_type
            },
    {
        if index < self.projects.len() {
            let ghost before = self.projects@;
            let new_name = trim(name.as_str());
            let new_desc = trim(desc.as_str());
            let new_path = trim(path.as_str());
            let new_tags = parse_tags(tags.as_str());
            let project = &mut self.projects[index];
            project.name = new_name;
            project.description = new_desc;
            project.path = new_path;
            project.tags = new_tags;
            proof {
                let v = old(self)@;
                assert(self.projects@[index as int]@ =~= edited_project(v.projects[index as int], name@, desc@, tags@, path@));
                assert(project_views(self.projects@) =~= v.projects.update(
                    index as int,
                    edited_project(v.projects[index as int], name@, desc@, tags@, path@),
                ));
                assert(self@ =~= AppView {
                    projects: v.projects.update(
                        index as int,
                        edited_project(v.projects[index as int], name@, desc@, tags@, path@),
                    ),
                    ..v
                });
            }
            return true;
        }
        self.editing_project = None;
        proof {
            assert(self@ =~= AppView { editing_project: None, ..old(self)@ });
        }
        false
    }

    /// After an edit of project `index` was saved: reported, the project
    /// scanned again if it is the selected one, and the editor closed.
    pub fn after_project_edited(&mut self, index: usize) -> (path: Option<String>)
        ensures
            ({
                let v = AppView { status_message: "项目已更新"@, ..old(self)@ };
                let cleared = AppView {
                    scan_result: None,
                    preview_content: PreviewContent::Empty,
                    preview_path: None,
                    ..v
                };
                if v.selected_project_index == Some(index) {
                    &&& final(self)@ == (AppView { editing_project: None, ..scan_started_view(cleared, index) })
                    &&& opt_view(path) == scan_path(v, index)
                } else {
                    final(self)@ == (AppView { editing_project: None, ..v }) && path is None
                }
            }),
    {
        self.status_message = String::from_str("项目已更新");
        let mut path = None;
        if self.selected_project_index == Some(index) {
            path = self.refresh_scan();
        }
        self.editing_project = None;
        proof {
            let v = AppView { status_message: "项目已更新"@, ..old(self)@ };
            let cleared = AppView {
                scan_result: None,
                preview_content: PreviewContent::Empty,
                preview_path: None,
                ..v
            };
            if v.selected_project_index == Some(index) {
                assert(self@ =~= AppView { editing_project: None, ..scan_started_view(cleared, index) });
            } else {
                assert(self@ =~= AppView { editing_project: None, ..v });
            }
        }
        path
    }

    /// Chooses the file at `path` for preview; returns whether its preview is
    /// to be loaded (not when it is already the previewed file).
    pub fn preview_file(&mut self, path: &str) -> (load: bool)
        ensures
            old(self)@.preview_path == Some(path@) ==> !load && final(self)@ == old(self)@,
            old(self)@.preview_path != Some(path@) ==> load && final(self)@ == (AppView {
                preview_path: Some(path@),
                ..old(self)@
            }),
    {
        let same = match &self.preview_path {
            Some(p) => str_eq(p.as_str(), path),
            None => false,
        };
        if same {
            return false;
        }
        self.preview_path = Some(String::from_str(path));
        proof {
            assert(self@ =~= AppView { preview_path: Some(path@), ..old(self)@ });
        }
        true
    }

    /// Shows a loaded preview.
    pub fn show_preview(&mut self, content: PreviewContent)
        ensures
            final(self)@ == (AppView { preview_content: content, ..old(self)@ }),
    {
        self.preview_content = content;
        proof {
            assert(self@ =~= AppView { preview_content: content, ..old(self)@ });
        }
    }

    /// Starts a search for the query (after the caller has cancelled any
    /// running one): an empty query clears the results; otherwise, with a
    /// project selected, the search runs in its folder, and its root and the
    /// query are returned.
    pub fn perform_search(&mut self) -> (job: Option<(String, String)>)
        requires
            old(self).search_query@.len() > 0 ==> selection_valid(old(self)@),
        ensures
            ({
                let v = old(self)@;
                if v.search_query.len() == 0 {
                    job is None && final(self)@ == (AppView {
                        search_results: Seq::empty(),
                        is_searching: false,
                        ..v
                    })
                } else {
                    match v.selected_project_index {
                        Some(i) => {
                            &&& final(self)@ == (AppView { is_searching: true, ..v })
                            &&& job is Some
                            &&& (job->0).0@ == v.projects[i as int].path
                            &&& (job->0).1@ == v.search_query
                        },
                        None => job is None && final(self)@ == v,
                    }
                }
            }),
    {
        if self.search_query.as_str().is_empty() {
            self.search_results = Vec::new();
            self.is_searching = false;
            proof {
                assert(string_views(self.search_results@) =~= Seq::<Seq<char>>::empty());
                assert(self@ =~= AppView { search_results: Seq::empty(), is_searching: false, ..old(self)@ });
            }
            return None;
        }
        match self.selected_project_index {
            Some(idx) => {
                let root = self.projects[idx].path.clone();
                let query = self.search_query.clone();
                self.is_searching = true;
                proof {
                    assert(self@ =~= AppView { is_searching: true, ..old(self)@ });
                }
                Some((root, query))
            },
            None => None,
        }
    }

    /// Starts the disk scan unless one runs; returns whether it started.
    pub fn start_auto_scan(&mut self) -> (started: bool)
        ensures
            old(self).is_auto_scanning ==> !started && final(self)@ == old(self)@,
            !old(self).is_auto_scanning ==> started && final(self)@ == (AppView {
                is_auto_scanning: true,
                auto_discovered: Seq::empty(),
                auto_scanning_drive: Seq::empty(),
                ..old(self)@
            }),
    {
        if self.is_auto_scanning {
            return false;
        }
        self.is_auto_scanning = true;
        self.auto_discovered = Vec::new();
        self.auto_scanning_drive = String::new();
        proof {
            assert(project_views(self.auto_discovered@) =~= Seq::<ProjectView>::empty());
            assert(self@ =~= AppView {
                is_auto_scanning: true,
                auto_discovered: Seq::empty(),
                auto_scanning_drive: Seq::empty(),
                ..old(self)@
            });
        }
        true
    }

    /// Takes one report of the disk scan; returns whether the scan is over.
    /// A found project is kept unless a kept or an already found project has
    /// its path.
    pub fn on_auto_scan_event(&mut self, event: AutoScanProgress) -> (finished: bool)
        ensures
            ({
                let v = old(self)@;
                match event {
                    AutoScanProgress::ScanningDrive(d) => !finished && final(self)@ == (AppView {
                        auto_scanning_drive: d@,
                        ..v
                    }),
                    AutoScanProgress::FoundProject(p) => !finished && if has_path(v.auto_discovered, p@.path)
                        || has_path(v.projects, p@.path) {
                        final(self)@ == v
                    } else {
                        final(self)@ == (AppView { auto_discovered: v.auto_discovered.push(p@), ..v })
                    },
                    AutoScanProgress::Finished => finished && final(self)@ == (AppView {
                        is_auto_scanning: false,
                        auto_scanning_drive: Seq::empty(),
                        status_message: "磁盘扫描完成，发现 "@ + decimal(v.auto_discovered.len()) + " 个候选项目"@,
                        ..v
                    }),
                }
            }),
            discovered_fresh(old(self)@) ==> discovered_fresh(final(self)@),
    {
        match event {
            AutoScanProgress::ScanningDrive(drive) => {
                self.auto_scanning_drive = drive;
                proof {
                    assert(self@ =~= AppView { auto_scanning_drive: drive@, ..old(self)@ });
                }
                false
            },
            AutoScanProgress::FoundProject(project) => {
                let in_found = path_in(&self.auto_discovered, project.path.as_str());
                let in_kept = path_in(&self.projects, project.path.as_str());
                if !in_found && !in_kept {
                    let ghost before = self.auto_discovered@;
                    self.auto_discovered.push(project);
                    proof {
                        assert(project_views(self.auto_discovered@) =~= project_views(before).push(project@));
                        assert(self@ =~= AppView { auto_discovered: old(self)@.auto_discovered.push(project@), ..old(self)@ });
                    }
                }
                false
            },
            AutoScanProgress::Finished => {
                self.is_auto_scanning = false;
                self.auto_scanning_drive = String::new();
                let count = decimal_string(self.auto_discovered.len());
                let mut msg = String::from_str("磁盘扫描完成，发现 ");
                append_str(&mut msg, count.as_str());
                append_str(&mut msg, " 个候选项目");
                self.status_message = msg;
                proof {
                    assert(self@ =~= AppView {
                        is_auto_scanning: false,
                        auto_scanning_drive: Seq::empty(),
                        status_message: "磁盘扫描完成，发现 "@ + decimal(old(self)@.auto_discovered.len()) + " 个候选项目"@,
                        ..old(self)@
                    });
                }
                true
            },
        }
    }

    /// Takes the end of a disk scan that did not report finishing.
    pub fn on_auto_scan_disconnected(&mut self)
        ensures
            final(self)@ == (AppView { is_auto_scanning: false, ..old(self)@ }),
    {
        self.is_auto_scanning = false;
        proof {
            assert(self@ =~= AppView { is_auto_scanning: false, ..old(self)@ });
        }
    }

    /// Moves discovered project `index` to the kept projects; returns whether
    /// the configuration is to be saved.
    pub fn add_discovered_project(&mut self, index: usize) -> (save: bool)
        ensures
            ({
                let v = old(self)@;
                if index < v.auto_discovered.len() {
                    save && final(self)@ == (AppView {
                        auto_discovered: v.auto_discovered.remove(index as int),
                        projects: v.projects.push(v.auto_discovered[index as int]),
                        ..v
                    })
                } else {
                    !save && final(self)@ == v
                }
            }),
    {
        if index >= self.auto_discovered.len() {
            return false;
        }
        let ghost found_before = self.auto_discovered@;
        let ghost kept_before = self.projects@;
        let project = self.auto_discovered.remove(index);
        self.projects.push(project);
        proof {
            let v = old(self)@;
            assert(project_views(self.auto_discovered@) =~= project_views(found_before).remove(index as int));
            assert(project_views(self.projects@) =~= project_views(kept_before).push(v.auto_discovered[index as int]));
            assert(self@ =~= AppView {
                auto_discovered: v.auto_discovered.remove(index as int),
                projects: v.projects.push(v.auto_discovered[index as int]),
                ..v
            });
        }
        true
    }

    /// After a discovered project was added and the configuration saved: it is
    /// selected and scanned.
    pub fn after_discovered_added(&mut self) -> (path: Option<String>)
        requires
            old(self).projects@.len() > 0,
        ensures
            final(self)@ == (AppView { status_message: "项目已添加"@, ..last_selected_view(old(self)@) }),
            opt_view(path) == Some(old(self)@.projects.last().path),
    {
        let index = self.projects.len() - 1;
        self.reset_for_selection(index);
        let path = self.start_scan(index);
        self.status_message = String::from_str("项目已添加");
        proof {
            assert(self@ =~= AppView { status_message: "项目已添加"@, ..last_selected_view(old(self)@) });
        }
        path
    }

    /// Moves all discovered projects to the kept ones, in order; returns how
    /// many moved (the configuration is to be saved in any case).
    pub fn add_all_discovered(&mut self) -> (count: usize)
        ensures
            count == old(self)@.auto_discovered.len(),
            final(self)@ == (AppView {
                projects: old(self)@.projects + old(self)@.auto_discovered,
                auto_discovered: Seq::empty(),
                ..old(self)@
            }),
    {
        let count = self.auto_discovered.len();
        let mut moved: Vec<ProjectInfo> = Vec::new();
        std::mem::swap(&mut moved, &mut self.auto_discovered);
        let ghost kept_before = self.projects@;
        self.projects.append(&mut moved);
        proof {
            let v = old(self)@;
            assert(project_views(self.projects@) =~= v.projects + v.auto_discovered);
            assert(project_views(self.auto_discovered@) =~= Seq::<ProjectView>::empty());
            assert(self@ =~= AppView {
                projects: v.projects + v.auto_discovered,
                auto_discovered: Seq::empty(),
                ..v
            });
        }
        count
    }

    /// After `count` discovered projects were added and the configuration
    /// saved: the last is selected and scanned (if any moved), and the count
    /// reported.
    pub fn after_all_discovered_added(&mut self, count: usize) -> (path: Option<String>)
        requires
            count > 0 ==> old(self).projects@.len() > 0,
        ensures
            ({
                let msg = "已添加 "@ + decimal(count as nat) + " 个项目"@;
                if count > 0 {
                    &&& final(self)@ == (AppView { status_message: msg, ..last_selected_view(old(self)@) })
                    &&& opt_view(path) == Some(old(self)@.projects.last().path)
                } else {
                    final(self)@ == (AppView { status_message: msg, ..old(self)@ }) && path is None
                }
            }),
    {
        let mut path = None;
        if count > 0 {
            let index = self.projects.len() - 1;
            self.reset_for_selection(index);
            path = self.start_scan(index);
        }
        let digits = decimal_string(count);
        let mut msg = String::from_str("已添加 ");
        append_str(&mut msg, digits.as_str());
        append_str(&mut msg, " 个项目");
        self.status_message = msg;
        proof {
            let msg = "已添加 "@ + decimal(count as nat) + " 个项目"@;
            if count > 0 {
                assert(self@ =~= AppView { status_message: msg, ..last_selected_view(old(self)@) });
            } else {
                assert(self@ =~= AppView { status_message: msg, ..old(self)@ });
            }
        }
        path
    }
}

/// Whether a project of `s` has the path `path`.
fn path_in(s: &Vec<ProjectInfo>, path: &str) -> (r: bool)
    ensures
        r == has_path(project_views(s@), path@),
{
    let mut i: usize = 0;
    while i < s.len()
        invariant
            i <= s@.len(),
            forall|j: int| 0 <= j < i ==> s@[j].path@ != path@,
        decreases s@.len() - i,
    {
        if str_eq(s[i].path.as_str(), path) {
            assert(project_views(s@)[i as int].path == path@);
            return true;
        }
        i = i + 1;
    }
    proof {
        if has_path(project_views(s@), path@) {
            let j = choose|j: int| 0 <= j < project_views(s@).len() && (#[trigger] project_views(s@)[j]).path == path@;
            assert(s@[j].path@ == path@);
        }
    }
    false
}

} // verus!
