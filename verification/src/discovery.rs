//! The disk scan that looks for project folders, as a state machine: the
//! library decides what to look at next and what a listing or a probe means;
//! the caller does the file-system work that each step asks for.
use vstd::prelude::*;
use crate::models::ProjectInfo;
use crate::text::{str_eq, split_char, split_pieces, starts_with, seq_starts_with, to_lowercase, spec_lowercase, str_in_literals};
use crate::discover::{
    system_dir_list, ProjectProbe,
    DirCandidate, TypeProbe, system_dirs, is_project_container, spec_is_container,
    sort_dirs_by_priority, is_priority_order, is_project_dir_from_entries, listing_shows_project,
    detect_project_type, spec_project_type, create_project_info, spec_project_info,
    MAX_DIRS_PER_LEVEL,
};
use crate::tree::string_views;

verus! {

// ------------------------------------------------------------------
// Drives
// ------------------------------------------------------------------

/// The mount points of the mounted disks, each once, in the order in which
/// they were first listed.
pub open spec fn distinct_in_order(s: Seq<Seq<char>>) -> Seq<Seq<char>>
    decreases s.len(),
{
    if s.len() == 0 {
        Seq::empty()
    } else {
        let prev = distinct_in_order(s.drop_last());
        if prev.contains(s.last()) {
            prev
        } else {
            prev.push(s.last())
        }
    }
}

/// Whether `s` is among the strings of `v`.
fn string_listed(v: &Vec<String>, s: &str) -> (r: bool)
    ensures
        r == string_views(v@).contains(s@),
{
    let mut i: usize = 0;
    while i < v.len()
        invariant
            i <= v@.len(),
            forall|j: int| 0 <= j < i ==> v@[j]@ != s@,
        decreases v@.len() - i,
    {
        if str_eq(v[i].as_str(), s) {
            assert(string_views(v@)[i as int] == s@);
            return true;
        }
        i = i + 1;
    }
    proof {
        if string_views(v@).contains(s@) {
            let j = choose|j: int| 0 <= j < string_views(v@).len() && string_views(v@)[j] == s@;
            assert(v@[j]@ == s@);
        }
    }
    false
}

/// The roots that the disk scan starts from: the mount points of the
/// mounted disks (as the system lists them), each once, in order.
pub fn get_available_drives(mount_points: &Vec<String>) -> (v: Vec<String>)
    ensures
        string_views(v@) == distinct_in_order(string_views(mount_points@)),
{
    let ghost mv = string_views(mount_points@);
    let mut v: Vec<String> = Vec::new();
    let mut k: usize = 0;
    while k < mount_points.len()
        invariant
            k <= mount_points@.len(),
            mv == string_views(mount_points@),
            string_views(v@) == distinct_in_order(mv.take(k as int)),
        decreases mount_points@.len() - k,
    {
        let ghost before = v@;
        proof {
            assert(mv.take(k as int + 1).drop_last() =~= mv.take(k as int));
            assert(mv.take(k as int + 1).last() == mount_points@[k as int]@);
        }
        if !string_listed(&v, mount_points[k].as_str()) {
            v.push(mount_points[k].clone());
            proof {
                assert(string_views(v@) =~= string_views(before).push(mount_points@[k as int]@));
            }
        }
        k = k + 1;
    }
    proof {
        assert(mv.take(k as int) =~= mv);
    }
    v
}

// ------------------------------------------------------------------
// Listings
// ------------------------------------------------------------------

/// One entry of a folder listing.
pub struct ListedEntry {
    pub path: String,
    /// The entry's file name.
    pub name: String,
    pub is_dir: bool,
}

/// A top-level folder of a root that the scan keeps: a directory that is not
/// a system folder and not hidden.
pub open spec fn top_dir_kept(e: ListedEntry) -> bool {
    e.is_dir && !system_dirs().contains(e.name@) && !seq_starts_with(e.name@, "."@)
}

/// The kept top-level folders, in listing order.
pub open spec fn kept_top_dirs(es: Seq<ListedEntry>) -> Seq<DirCandidate>
    decreases es.len(),
{
    if es.len() == 0 {
        Seq::empty()
    } else {
        let prev = kept_top_dirs(es.drop_last());
        if top_dir_kept(es.last()) {
            prev.push(DirCandidate { path: es.last().path, name: es.last().name })
        } else {
            prev
        }
    }
}

/// A sub-folder that the scan descends into: a directory that is not hidden.
pub open spec fn sub_dir_kept(e: ListedEntry) -> bool {
    e.is_dir && !seq_starts_with(e.name@, "."@)
}

/// The paths of the kept sub-folders, in listing order.
pub open spec fn kept_sub_dirs(es: Seq<ListedEntry>) -> Seq<String>
    decreases es.len(),
{
    if es.len() == 0 {
        Seq::empty()
    } else {
        let prev = kept_sub_dirs(es.drop_last());
        if sub_dir_kept(es.last()) {
            prev.push(es.last().path)
        } else {
            prev
        }
    }
}

/// The names of all entries of a listing.
pub open spec fn listed_names(es: Seq<ListedEntry>) -> Seq<Seq<char>> {
    Seq::new(es.len(), |i: int| es[i].name@)
}

/// Law: the names a listing is judged by are those of all its entries,
/// directories and files alike, in order.
pub proof fn law_listed_names_are_every_name(es: Seq<ListedEntry>)
    ensures
        listed_names(es).len() == es.len(),
        forall|i: int| 0 <= i < es.len() ==> #[trigger] listed_names(es)[i] == es[i].name@,
{
}

/// Law: a listing that holds an entry named ".git" (a repository folder)
/// shows a project, whether the entry is a directory or not.
pub proof fn law_git_entry_shows_project(es: Seq<ListedEntry>, i: int)
    requires
        0 <= i < es.len(),
        es[i].name@ == ".git"@,
    ensures
        listing_shows_project(listed_names(es)),
{
    let names = listed_names(es);
    assert(names[i] == ".git"@);
    assert(crate::discover::marker_dirs()[0] == ".git"@);
    assert(crate::discover::marker_dirs().contains(names[i]));
}

// ------------------------------------------------------------------
// The state machine
// ------------------------------------------------------------------

/// Depth at which the scan stops below an ordinary top-level folder.
pub const NORMAL_MAX_DEPTH: u32 = 4;

/// Depth at which the scan stops below a project container.
pub const CONTAINER_MAX_DEPTH: u32 = 6;

/// Work that is still to be done.
pub enum DiscoveryTask {
    /// Check whether the home folder itself is a project.
    CheckHome { path: String },
    /// List a root and queue its top-level folders.
    ScanRoot { path: String },
    /// Check whether a top-level folder is a project, else descend into it.
    CheckTop { path: String, container: bool },
    /// List a folder at some depth: a project, or descend into its sub-folders.
    ScanDir { path: String, depth: u32, max_depth: u32 },
    /// Describe a found project.
    Describe { path: String },
}

/// What the caller is asked to do next.
pub enum DiscoveryStep {
    /// Probe the folder for project markers; answer with `on_project_probe`.
    ProbeProject { path: String },
    /// Report that scanning this root starts, list it; answer with
    /// `on_root_listing`.
    ListRoot { path: String },
    /// List the folder; answer with `on_dir_listing`.
    ListDir { path: String },
    /// Probe the project's type; answer with `on_described`.
    Describe { path: String },
    /// Nothing is left.
    Done,
}

/// The state of a disk scan.
pub struct Discovery {
    /// Pending work; the last task is done first.
    pub tasks: Vec<DiscoveryTask>,
    /// The task whose step the caller is carrying out.
    pub current: Option<DiscoveryTask>,
    /// Projects found so far, in the order found.
    pub found: Vec<ProjectInfo>,
    /// Folders recognised as projects so far.
    pub dirs_scanned: u32,
}

/// A scan state is well formed when every pending folder scan is at most one
/// level below its limit and that limit is one of the two limits.
pub open spec fn task_wf(t: DiscoveryTask) -> bool {
    match t {
        DiscoveryTask::ScanDir { depth, max_depth, .. } => (max_depth == NORMAL_MAX_DEPTH
            || max_depth == CONTAINER_MAX_DEPTH) && depth <= max_depth + 1,
        _ => true,
    }
}

impl Discovery {
    pub open spec fn wf(&self) -> bool {
        &&& forall|i: int| 0 <= i < self.tasks@.len() ==> task_wf(#[trigger] self.tasks@[i])
        &&& match self.current {
            Some(t) => task_wf(t),
            None => true,
        }
    }
}

/// A path begins at a root: a separator, or a drive ("C:") and a separator.
pub open spec fn has_root(p: Seq<char>, separator: char) -> bool {
    (p.len() > 0 && p[0] == separator) || (p.len() > 2 && p[1] == ':' && p[2] == separator)
}

/// The components of a path from its pieces between separators: empty
/// pieces are left out, and so is "." but as the first piece.
pub open spec fn kept_components(pieces: Seq<Seq<char>>) -> Seq<Seq<char>>
    decreases pieces.len(),
{
    if pieces.len() == 0 {
        Seq::empty()
    } else {
        let rest = kept_components(pieces.drop_last());
        let last = pieces.last();
        if last.len() == 0 || (last == seq!['.'] && pieces.len() > 1) {
            rest
        } else {
            rest.push(last)
        }
    }
}

/// Two paths name the same place when both or neither begin at a root and
/// they have the same components: repeated separators, a separator at the
/// end and "." components make no difference.
pub open spec fn same_path(a: Seq<char>, b: Seq<char>, separator: char) -> bool {
    has_root(a, separator) == has_root(b, separator) && kept_components(split_pieces(a, separator))
        == kept_components(split_pieces(b, separator))
}

fn path_has_root(p: &str, separator: char) -> (r: bool)
    ensures
        r == has_root(p@, separator),
{
    let cs = crate::text::chars_of(p);
    (cs.len() > 0 && cs[0] == separator) || (cs.len() > 2 && cs[1] == ':' && cs[2] == separator)
}

/// The components of a path (see `kept_components`).
fn path_components(p: &str, separator: char) -> (r: Vec<String>)
    ensures
        string_views(r@) == kept_components(split_pieces(p@, separator)),
{
    let pieces = split_char(p, separator);
    let ghost pv = string_views(pieces@);
    let mut r: Vec<String> = Vec::new();
    let mut i: usize = 0;
    while i < pieces.len()
        invariant
            i <= pieces@.len(),
            pv == string_views(pieces@),
            string_views(r@) == kept_components(pv.take(i as int)),
        decreases pieces@.len() - i,
    {
        proof {
            assert(pv.take(i as int + 1).drop_last() =~= pv.take(i as int));
            assert(pv.take(i as int + 1).last() == pieces@[i as int]@);
        }
        let piece = pieces[i].as_str();
        let n = crate::text::chars_of(piece).len();
        let dot = n == 1 && crate::text::chars_of(piece)[0] == '.';
        if !(n == 0 || (dot && i > 0)) {
            let ghost before = string_views(r@);
            r.push(pieces[i].clone());
            assert(string_views(r@) =~= before.push(pieces@[i as int]@));
        }
        proof {
            let pc = pieces@[i as int]@;
            if n == 1 {
                assert(dot == (pc =~= seq!['.']));
            }
        }
        i = i + 1;
    }
    assert(pv.take(i as int) =~= pv);
    r
}

/// Whether two paths name the same place (see `same_path`).
pub fn is_same_path(a: &str, b: &str, separator: char) -> (r: bool)
    ensures
        r == same_path(a@, b@, separator),
{
    let ra = path_has_root(a, separator);
    let rb = path_has_root(b, separator);
    if ra != rb {
        return false;
    }
    let ca = path_components(a, separator);
    let cb = path_components(b, separator);
    if ca.len() != cb.len() {
        assert(string_views(ca@).len() != string_views(cb@).len());
        return false;
    }
    let mut i: usize = 0;
    while i < ca.len()
        invariant
            i <= ca@.len() == cb@.len(),
            forall|j: int| 0 <= j < i ==> ca@[j]@ == cb@[j]@,
            has_root(a@, separator) == has_root(b@, separator),
            string_views(ca@) == kept_components(split_pieces(a@, separator)),
            string_views(cb@) == kept_components(split_pieces(b@, separator)),
        decreases ca@.len() - i,
    {
        if !str_eq(ca[i].as_str(), cb[i].as_str()) {
            assert(string_views(ca@)[i as int] != string_views(cb@)[i as int]);
            assert(string_views(ca@) != string_views(cb@));
            return false;
        }
        i = i + 1;
    }
    assert(string_views(ca@) =~= string_views(cb@));
    true
}

/// The tasks with which a scan starts: the home check (if there is a home
/// folder), then each root in order; the home folder is a root too unless it
/// names the same place as one of the drives.
pub open spec fn initial_tasks(drives: Seq<String>, home: Option<String>, separator: char) -> Seq<DiscoveryTask> {
    let roots = match home {
        Some(h) => if exists|j: int| 0 <= j < drives.len() && same_path(#[trigger] drives[j]@, h@, separator) {
            drives
        } else {
            drives.push(h)
        },
        None => drives,
    };
    let root_tasks = Seq::new(roots.len(), |i: int| DiscoveryTask::ScanRoot { path: roots[i] });
    match home {
        Some(h) => root_tasks.reverse().push(DiscoveryTask::CheckHome { path: h }),
        None => root_tasks.reverse(),
    }
}

/// The tasks that listing a root queues: the kept top-level folders in
/// priority order, at most `MAX_DIRS_PER_LEVEL` of them, each with whether it
/// is a container; the first is done first.
pub open spec fn top_tasks(sorted: Seq<DirCandidate>) -> Seq<DiscoveryTask> {
    let n = if sorted.len() < MAX_DIRS_PER_LEVEL { sorted.len() as int } else { MAX_DIRS_PER_LEVEL as int };
    Seq::new(
        n as nat,
        |i: int|
            DiscoveryTask::CheckTop {
                path: sorted[i].path,
                container: spec_is_container(spec_lowercase(sorted[i].name@)),
            },
    ).reverse()
}

/// The tasks that listing a folder that is not a project queues: its kept
/// sub-folders one level deeper, the first done first.
pub open spec fn sub_tasks(subs: Seq<String>, depth: u32, max_depth: u32) -> Seq<DiscoveryTask> {
    Seq::new(
        subs.len(),
        |i: int| DiscoveryTask::ScanDir { path: subs[i], depth: (depth + 1) as u32, max_depth },
    ).reverse()
}

fn clone_tags(tags: &Vec<String>) -> (r: Vec<String>)
    ensures
        r@ == tags@,
{
    let mut r: Vec<String> = Vec::new();
    let mut i: usize = 0;
    while i < tags.len()
        invariant
            i <= tags@.len(),
            r@ == tags@.take(i as int),
        decreases tags@.len() - i,
    {
        r.push(tags[i].clone());
        i = i + 1;
        proof {
            assert(r@ =~= tags@.take(i as int));
        }
    }
    proof {
        assert(tags@.take(i as int) =~= tags@);
    }
    r
}

/// A copy of a project entry.
pub fn clone_project(p: &ProjectInfo) -> (r: ProjectInfo)
    ensures
        r@ == p@,
{
    let tags = clone_tags(&p.tags);
    assert(Seq::new(tags@.len(), |i: int| tags@[i]@) =~= Seq::new(p.tags@.len(), |i: int| p.tags@[i]@));
    ProjectInfo {
        name: p.name.clone(),
        path: p.path.clone(),
        description: p.description.clone(),
        tags: tags,
        added_date: p.added_date.clone(),
        auto_discovered: p.auto_discovered,
        project_type: p.project_type.clone(),
    }
}

/// Pushes `items` onto the stack of tasks in reverse, so that the first of
/// them is done first.
fn push_reversed(tasks: &mut Vec<DiscoveryTask>, items: Vec<DiscoveryTask>)
    ensures
        final(tasks)@ == old(tasks)@ + items@.reverse(),
{
    let ghost t0 = tasks@;
    let ghost it = items@;
    let mut items = items;
    while items.len() > 0
        invariant
            it.len() >= items@.len(),
            items@ == it.take(items@.len() as int),
            tasks@ == t0 + it.skip(items@.len() as int).reverse(),
        decreases items@.len(),
    {
        let n = items.len();
        let t = items.pop().unwrap();
        proof {
            assert(t == it[n - 1]);
            assert(it.skip(n - 1).reverse() =~= it.skip(n as int).reverse().push(it[n - 1]));
        }
        tasks.push(t);
        proof {
            assert(items@ =~= it.take(items@.len() as int));
        }
    }
    proof {
        assert(it.skip(0) =~= it);
    }
}

impl Discovery {
    /// A scan of the given drives and home folder, with nothing found yet.
    pub fn new(drives: Vec<String>, home: Option<String>, separator: char) -> (d: Discovery)
        ensures
            d.tasks@ == initial_tasks(drives@, home, separator),
            d.current is None,
            d.found@.len() == 0,
            d.dirs_scanned == 0,
            d.wf(),
    {
        let ghost dv = drives@;
        let mut roots = drives;
        match &home {
            Some(h) => {
                let mut present = false;
                let mut i: usize = 0;
                while i < roots.len()
                    invariant
                        i <= roots@.len(),
                        roots@ == dv,
                        present == exists|j: int| 0 <= j < i && same_path(#[trigger] roots@[j]@, h@, separator),
                    decreases roots@.len() - i,
                {
                    if is_same_path(roots[i].as_str(), h.as_str(), separator) {
                        present = true;
                    }
                    i = i + 1;
                }
                if !present {
                    roots.push(h.clone());
                }
            },
            None => {},
        }
        let ghost rv = roots@;
        let mut root_tasks: Vec<DiscoveryTask> = Vec::new();
        let mut i: usize = 0;
        while i < roots.len()
            invariant
                i <= roots@.len(),
                roots@ == rv,
                root_tasks@.len() == i,
                forall|j: int| 0 <= j < i ==> #[trigger] root_tasks@[j] == (DiscoveryTask::ScanRoot { path: rv[j] }),
            decreases roots@.len() - i,
        {
            root_tasks.push(DiscoveryTask::ScanRoot { path: roots[i].clone() });
            i = i + 1;
        }
        let mut tasks: Vec<DiscoveryTask> = Vec::new();
        let ghost rt = root_tasks@;
        push_reversed(&mut tasks, root_tasks);
        match home {
            Some(h) => {
                tasks.push(DiscoveryTask::CheckHome { path: h });
            },
            None => {},
        }
        proof {
            let roots_spec = Seq::new(rv.len(), |j: int| DiscoveryTask::ScanRoot { path: rv[j] });
            assert(rt =~= roots_spec);
            assert(tasks@ =~= initial_tasks(dv, home, separator));
        }
        Discovery { tasks, current: None, found: Vec::new(), dirs_scanned: 0 }
    }
}


/// A task is live unless it is a folder scan below its depth limit.
pub open spec fn live(t: DiscoveryTask) -> bool {
    match t {
        DiscoveryTask::ScanDir { depth, max_depth, .. } => depth <= max_depth,
        _ => true,
    }
}

/// Position of the last live task, or -1.
pub open spec fn last_live(ts: Seq<DiscoveryTask>) -> int
    decreases ts.len(),
{
    if ts.len() == 0 {
        -1
    } else if live(ts.last()) {
        ts.len() - 1
    } else {
        last_live(ts.drop_last())
    }
}

/// What the caller is asked to do for a task.
pub open spec fn step_for(t: DiscoveryTask) -> DiscoveryStep {
    match t {
        DiscoveryTask::CheckHome { path } => DiscoveryStep::ProbeProject { path },
        DiscoveryTask::CheckTop { path, .. } => DiscoveryStep::ProbeProject { path },
        DiscoveryTask::ScanRoot { path } => DiscoveryStep::ListRoot { path },
        DiscoveryTask::ScanDir { path, .. } => DiscoveryStep::ListDir { path },
        DiscoveryTask::Describe { path } => DiscoveryStep::Describe { path },
    }
}

/// The path of a task.
pub open spec fn task_path(t: DiscoveryTask) -> String {
    match t {
        DiscoveryTask::CheckHome { path } => path,
        DiscoveryTask::CheckTop { path, .. } => path,
        DiscoveryTask::ScanRoot { path } => path,
        DiscoveryTask::ScanDir { path, .. } => path,
        DiscoveryTask::Describe { path } => path,
    }
}

impl Discovery {
    /// Takes the next live task off the stack (folders below their depth
    /// limit are dropped on the way) and says what the caller is to do for it.
    pub fn next_step(&mut self) -> (step: DiscoveryStep)
        requires
            old(self).current is None,
            old(self).wf(),
        ensures
            final(self).wf(),
            final(self).found == old(self).found,
            final(self).dirs_scanned == old(self).dirs_scanned,
            last_live(old(self).tasks@) < 0 ==> step is Done && final(self).tasks@.len() == 0
                && final(self).current is None,
            last_live(old(self).tasks@) >= 0 ==> {
                let k = last_live(old(self).tasks@);
                &&& final(self).tasks@ == old(self).tasks@.take(k)
                &&& final(self).current == Some(old(self).tasks@[k])
                &&& step == step_for(old(self).tasks@[k])
            },
    {
        let ghost t0 = self.tasks@;
        loop
            invariant
                self.current is None,
                self.found == old(self).found,
                self.dirs_scanned == old(self).dirs_scanned,
                t0 == old(self).tasks@,
                self.tasks@.len() <= t0.len(),
                self.tasks@ == t0.take(self.tasks@.len() as int),
                last_live(t0) == last_live(self.tasks@),
                self.wf(),
            decreases self.tasks@.len(),
        {
            let n = self.tasks.len();
            if n == 0 {
                return DiscoveryStep::Done;
            }
            let t = self.tasks.pop().unwrap();
            let ghost prev = self.tasks@;
            proof {
                assert(t0.take(n as int).drop_last() =~= prev);
                assert(t0.take(n as int).last() == t);
                assert(t0.take(n as int).drop_last() =~= t0.take(n - 1));
                assert(task_wf(t0.take(n as int)[n - 1]));
            }
            let live_task = match &t {
                DiscoveryTask::ScanDir { depth, max_depth, .. } => *depth <= *max_depth,
                _ => true,
            };
            if live_task {
                let step = match &t {
                    DiscoveryTask::CheckHome { path } => DiscoveryStep::ProbeProject { path: path.clone() },
                    DiscoveryTask::CheckTop { path, .. } => DiscoveryStep::ProbeProject { path: path.clone() },
                    DiscoveryTask::ScanRoot { path } => DiscoveryStep::ListRoot { path: path.clone() },
                    DiscoveryTask::ScanDir { path, .. } => DiscoveryStep::ListDir { path: path.clone() },
                    DiscoveryTask::Describe { path } => DiscoveryStep::Describe { path: path.clone() },
                };
                self.current = Some(t);
                return step;
            }
            proof {
                assert(prev == t0.take(n - 1));
            }
        }
    }

    /// Takes the answer to a `ProbeProject` step: a project is queued to be
    /// described (and counted); a top-level folder that is not a project is
    /// queued to be scanned to the depth that its kind allows.
    pub fn on_project_probe(&mut self, is_project: bool)
        requires
            old(self).wf(),
            old(self).current matches Some(t) && (t is CheckHome || t is CheckTop),
            is_project ==> old(self).dirs_scanned < u32::MAX,
        ensures
            final(self).wf(),
            final(self).current is None,
            final(self).found == old(self).found,
            is_project ==> final(self).dirs_scanned == old(self).dirs_scanned + 1
                && final(self).tasks@ == old(self).tasks@.push(
                DiscoveryTask::Describe { path: task_path(old(self).current->0) },
            ),
            !is_project ==> final(self).dirs_scanned == old(self).dirs_scanned,
            !is_project && old(self).current->0 is CheckHome ==> final(self).tasks@ == old(self).tasks@,
            !is_project ==> (old(self).current->0 matches DiscoveryTask::CheckTop { path, container }
                ==> final(self).tasks@ == old(self).tasks@.push(
                DiscoveryTask::ScanDir {
                    path,
                    depth: 2,
                    max_depth: if container { CONTAINER_MAX_DEPTH } else { NORMAL_MAX_DEPTH },
                },
            )),
    {
        let t = self.current.take().unwrap();
        match t {
            DiscoveryTask::CheckHome { path } => {
                if is_project {
                    self.dirs_scanned = self.dirs_scanned + 1;
                    self.tasks.push(DiscoveryTask::Describe { path });
                }
            },
            DiscoveryTask::CheckTop { path, container } => {
                if is_project {
                    self.dirs_scanned = self.dirs_scanned + 1;
                    self.tasks.push(DiscoveryTask::Describe { path });
                } else {
                    let max_depth = if container { CONTAINER_MAX_DEPTH } else { NORMAL_MAX_DEPTH };
                    self.tasks.push(DiscoveryTask::ScanDir { path, depth: 2, max_depth });
                }
            },
            _ => {},
        }
    }

    /// Takes the answer to a `ListRoot` step (`None` where the root could not
    /// be listed): the kept top-level folders, containers first, at most
    /// `MAX_DIRS_PER_LEVEL` of them, are queued to be checked in that order.
    pub fn on_root_listing(&mut self, listing: Option<Vec<ListedEntry>>)
        requires
            old(self).wf(),
            old(self).current matches Some(t) && t is ScanRoot,
        ensures
            final(self).wf(),
            final(self).current is None,
            final(self).found == old(self).found,
            final(self).dirs_scanned == old(self).dirs_scanned,
            listing is None ==> final(self).tasks@ == old(self).tasks@,
            listing matches Some(es) ==> exists|sorted: Seq<DirCandidate>|
                is_priority_order(kept_top_dirs(es@), sorted) && final(self).tasks@ == old(self).tasks@
                    + top_tasks(sorted),
    {
        self.current = None;
        let es = match listing {
            Some(es) => es,
            None => {
                return;
            },
        };
        let systems = system_dir_list();
        let mut cands: Vec<DirCandidate> = Vec::new();
        let mut i: usize = 0;
        while i < es.len()
            invariant
                i <= es@.len(),
                systems@.len() == system_dirs().len(),
                forall|k: int| 0 <= k < systems@.len() ==> systems@[k]@ == #[trigger] system_dirs()[k],
                cands@ == kept_top_dirs(es@.take(i as int)),
            decreases es@.len() - i,
        {
            proof {
                assert(es@.take(i as int + 1).drop_last() =~= es@.take(i as int));
            }
            let e = &es[i];
            if e.is_dir && !str_in_literals(e.name.as_str(), &systems, Ghost(system_dirs()))
                && !starts_with(e.name.as_str(), ".") {
                cands.push(DirCandidate { path: e.path.clone(), name: e.name.clone() });
            }
            i = i + 1;
        }
        proof {
            assert(es@.take(i as int) =~= es@);
        }
        let ghost kept = cands@;
        sort_dirs_by_priority(&mut cands);
        let ghost sorted = cands@;
        let n = if cands.len() < MAX_DIRS_PER_LEVEL { cands.len() } else { MAX_DIRS_PER_LEVEL };
        let mut tops: Vec<DiscoveryTask> = Vec::new();
        let mut k: usize = 0;
        while k < n
            invariant
                k <= n <= cands@.len(),
                cands@ == sorted,
                tops@.len() == k,
                forall|j: int| 0 <= j < k ==> #[trigger] tops@[j] == (DiscoveryTask::CheckTop {
                    path: sorted[j].path,
                    container: spec_is_container(spec_lowercase(sorted[j].name@)),
                }),
            decreases n - k,
        {
            let lower = to_lowercase(cands[k].name.as_str());
            let container = is_project_container(lower.as_str());
            tops.push(DiscoveryTask::CheckTop { path: cands[k].path.clone(), container });
            k = k + 1;
        }
        let ghost tv = tops@;
        push_reversed(&mut self.tasks, tops);
        proof {
            let spec_tops = Seq::new(
                n as nat,
                |j: int|
                    DiscoveryTask::CheckTop {
                        path: sorted[j].path,
                        container: spec_is_container(spec_lowercase(sorted[j].name@)),
                    },
            );
            assert(tv =~= spec_tops);
            assert(top_tasks(sorted) == spec_tops.reverse());
            assert(is_priority_order(kept, sorted));
            assert forall|j: int| 0 <= j < self.tasks@.len() implies task_wf(#[trigger] self.tasks@[j]) by {
                if j >= old(self).tasks@.len() {
                    assert(self.tasks@[j] == tv.reverse()[j - old(self).tasks@.len()]);
                } else {
                    assert(self.tasks@[j] == old(self).tasks@[j]);
                }
            }
        }
    }

    /// Takes the answer to a `ListDir` step (`None` where the folder could
    /// not be listed): a folder whose listing shows a project is queued to be
    /// described (and counted); otherwise its kept sub-folders are queued one
    /// level deeper, in listing order.
    pub fn on_dir_listing(&mut self, listing: Option<Vec<ListedEntry>>)
        requires
            old(self).wf(),
            old(self).current matches Some(t) && t is ScanDir && live(t),
            old(self).dirs_scanned < u32::MAX,
        ensures
            final(self).wf(),
            final(self).current is None,
            final(self).found == old(self).found,
            listing is None ==> final(self).tasks@ == old(self).tasks@ && final(self).dirs_scanned
                == old(self).dirs_scanned,
            listing matches Some(es) ==> (old(self).current->0 matches DiscoveryTask::ScanDir {
                path,
                depth,
                max_depth,
            } ==> if listing_shows_project(listed_names(es@)) {
                &&& final(self).dirs_scanned == old(self).dirs_scanned + 1
                &&& final(self).tasks@ == old(self).tasks@.push(DiscoveryTask::Describe { path })
            } else {
                &&& final(self).dirs_scanned == old(self).dirs_scanned
                &&& final(self).tasks@ == old(self).tasks@ + sub_tasks(
                    kept_sub_dirs(es@),
                    depth,
                    max_depth,
                )
            }),
            listing matches Some(es) && (exists|k: int| 0 <= k < es@.len() && (#[trigger] es@[k]).name@ == ".git"@) ==> (
            old(self).current->0 matches DiscoveryTask::ScanDir { path, .. } ==> {
                &&& final(self).dirs_scanned == old(self).dirs_scanned + 1
                &&& final(self).tasks@ == old(self).tasks@.push(DiscoveryTask::Describe { path })
            }),
    {
        let t = self.current.take().unwrap();
        let es = match listing {
            Some(es) => es,
            None => {
                return;
            },
        };
        match t {
            DiscoveryTask::ScanDir { path, depth, max_depth } => {
                let mut names: Vec<String> = Vec::new();
                let mut subs: Vec<DiscoveryTask> = Vec::new();
                let ghost mut sub_paths: Seq<String> = Seq::empty();
                let mut i: usize = 0;
                while i < es.len()
                    invariant
                        i <= es@.len(),
                        depth <= max_depth,
                        max_depth == NORMAL_MAX_DEPTH || max_depth == CONTAINER_MAX_DEPTH,
                        string_views(names@) == listed_names(es@.take(i as int)),
                        sub_paths == kept_sub_dirs(es@.take(i as int)),
                        subs@.len() == sub_paths.len(),
                        forall|j: int| 0 <= j < subs@.len() ==> #[trigger] subs@[j] == (DiscoveryTask::ScanDir {
                            path: sub_paths[j],
                            depth: (depth + 1) as u32,
                            max_depth,
                        }),
                    decreases es@.len() - i,
                {
                    proof {
                        assert(es@.take(i as int + 1).drop_last() =~= es@.take(i as int));
                    }
                    let e = &es[i];
                    let ghost before = names@;
                    names.push(e.name.clone());
                    proof {
                        assert(string_views(before).len() == i);
                        assert(names@ == before.push(es@[i as int].name));
                        let a = string_views(names@);
                        let b = listed_names(es@.take(i as int + 1));
                        assert forall|j: int| 0 <= j < i + 1 implies a[j] == b[j] by {
                            if j < i {
                                assert(a[j] == string_views(before)[j]);
                                assert(b[j] == listed_names(es@.take(i as int))[j]);
                            }
                        }
                        assert(a =~= b);
                    }
                    if e.is_dir && !starts_with(e.name.as_str(), ".") {
                        subs.push(DiscoveryTask::ScanDir { path: e.path.clone(), depth: depth + 1, max_depth });
                        proof {
                            sub_paths = sub_paths.push(e.path);
                        }
                    }
                    i = i + 1;
                }
                proof {
                    assert(es@.take(i as int) =~= es@);
                    assert forall|k: int| 0 <= k < es@.len() && (#[trigger] es@[k]).name@ == ".git"@ implies listing_shows_project(
                        listed_names(es@),
                    ) by {
                        law_git_entry_shows_project(es@, k);
                    }
                }
                if is_project_dir_from_entries(&names) {
                    self.dirs_scanned = self.dirs_scanned + 1;
                    self.tasks.push(DiscoveryTask::Describe { path });
                } else {
                    let ghost sv = subs@;
                    push_reversed(&mut self.tasks, subs);
                    proof {
                        let spec_subs = Seq::new(
                            sub_paths.len(),
                            |j: int| DiscoveryTask::ScanDir { path: sub_paths[j], depth: (depth + 1) as u32, max_depth },
                        );
                        assert(sv =~= spec_subs);
                        assert forall|j: int| 0 <= j < self.tasks@.len() implies task_wf(#[trigger] self.tasks@[j]) by {
                            if j >= old(self).tasks@.len() {
                                assert(self.tasks@[j] == sv.reverse()[j - old(self).tasks@.len()]);
                            } else {
                                assert(self.tasks@[j] == old(self).tasks@[j]);
                            }
                        }
                    }
                }
            },
            _ => {},
        }
    }

    /// Takes the answer to a `Describe` step: the project entry is made
    /// (typed from the probe, dated `now`), kept among the found ones, and
    /// returned for reporting.
    pub fn on_described(
        &mut self,
        file_name: Option<String>,
        probe: &TypeProbe,
        now: String,
    ) -> (p: ProjectInfo)
        requires
            old(self).wf(),
            old(self).current matches Some(t) && t is Describe,
        ensures
            final(self).wf(),
            final(self).current is None,
            final(self).tasks == old(self).tasks,
            final(self).dirs_scanned == old(self).dirs_scanned,
            spec_project_info(
                file_name,
                task_path(old(self).current->0)@,
                spec_project_type(*probe),
                now@,
                p,
            ),
            crate::models::project_views(final(self).found@) == crate::models::project_views(
                old(self).found@,
            ).push(p@),
    {
        let t = self.current.take().unwrap();
        let path = match t {
            DiscoveryTask::Describe { path } => path,
            DiscoveryTask::CheckHome { path } => path,
            DiscoveryTask::CheckTop { path, .. } => path,
            DiscoveryTask::ScanRoot { path } => path,
            DiscoveryTask::ScanDir { path, .. } => path,
        };
        let project_type = detect_project_type(probe);
        let p = create_project_info(file_name, path, project_type, now);
        let ghost before = self.found@;
        self.found.push(clone_project(&p));
        proof {
            assert(crate::models::project_views(self.found@) =~= crate::models::project_views(before).push(p@));
        }
        p
    }
}

} // verus!
