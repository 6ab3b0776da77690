//! Recognising project folders, and the disk scan that looks for them.
use vstd::prelude::*;
use crate::models::ProjectInfo;
use crate::text::{
    spec_lowercase, to_lowercase, ends_with, seq_ends_with, str_eq, str_in_literals, starts_with,
    seq_starts_with, concat2,
};
use crate::sorting::{PositionOrder, is_sorted_permutation, stable_sort_indices};

verus! {

// ------------------------------------------------------------------
// Marker lists
// ------------------------------------------------------------------

/// File names whose presence makes a folder a project.
pub open spec fn marker_files() -> Seq<Seq<char>> {
    seq![
        "Cargo.toml"@, "package.json"@, "CMakeLists.txt"@, "Makefile"@, "pom.xml"@,
        "build.gradle"@, "build.gradle.kts"@, "setup.py"@, "setup.cfg"@, "pyproject.toml"@,
        "go.mod"@, "composer.json"@, "Gemfile"@, "Dockerfile"@, "docker-compose.yml"@,
        "meson.build"@, "BUILD"@, "BUILD.bazel"@, ".project"@, "pubspec.yaml"@, "mix.exs"@,
        "rebar.config"@, "stack.yaml"@
    ]
}

/// Directory names whose presence makes a folder a project.
pub open spec fn marker_dirs() -> Seq<Seq<char>> {
    seq![".git"@]
}

/// Suffixes (of lower-cased names) whose presence makes a folder a project.
pub open spec fn marker_globs() -> Seq<Seq<char>> {
    seq![".sln"@, ".csproj"@, ".fsproj"@, ".cabal"@]
}

/// Top-level folders of a drive that the disk scan leaves alone.
pub open spec fn system_dirs() -> Seq<Seq<char>> {
    seq![
        "Windows"@, "Program Files"@, "Program Files (x86)"@, "ProgramData"@, "$Recycle.Bin"@,
        "System Volume Information"@, "Recovery"@, "PerfLogs"@
    ]
}

/// Lower-case names of folders that usually hold projects.
pub open spec fn container_names() -> Seq<Seq<char>> {
    seq![
        "projects"@, "project"@, "dev"@, "code"@, "src"@, "source"@, "workspace"@,
        "workspaces"@, "repo"@, "repos"@, "git"@, "work"@
    ]
}

/// Marker files by which a project's type is told, in order of priority.
pub open spec fn type_markers() -> Seq<Seq<char>> {
    seq![
        "Cargo.toml"@, "go.mod"@, "package.json"@, "CMakeLists.txt"@, "pom.xml"@,
        "build.gradle"@, "build.gradle.kts"@, "setup.py"@, "pyproject.toml"@, "pubspec.yaml"@,
        "mix.exs"@, "composer.json"@, "Gemfile"@, "Makefile"@, "Dockerfile"@
    ]
}

/// The type that each of `type_markers()` tells.
pub open spec fn type_names() -> Seq<Seq<char>> {
    seq![
        "Rust"@, "Go"@, "Node.js"@, "CMake"@, "Maven"@, "Gradle"@, "Gradle"@, "Python"@,
        "Python"@, "Flutter"@, "Elixir"@, "PHP"@, "Ruby"@, "Make"@, "Docker"@
    ]
}

/// The most top-level folders of one root that the disk scan looks at.
pub const MAX_DIRS_PER_LEVEL: usize = 80;

/// The marker files, for probing a folder.
pub fn project_marker_files() -> (v: Vec<&'static str>)
    ensures
        v@.len() == marker_files().len(),
        forall|i: int| 0 <= i < v@.len() ==> v@[i]@ == #[trigger] marker_files()[i],
{
    vec![
        "Cargo.toml", "package.json", "CMakeLists.txt", "Makefile", "pom.xml",
        "build.gradle", "build.gradle.kts", "setup.py", "setup.cfg", "pyproject.toml",
        "go.mod", "composer.json", "Gemfile", "Dockerfile", "docker-compose.yml",
        "meson.build", "BUILD", "BUILD.bazel", ".project", "pubspec.yaml", "mix.exs",
        "rebar.config", "stack.yaml",
    ]
}

/// The marker directories, for probing a folder.
pub fn project_marker_dirs() -> (v: Vec<&'static str>)
    ensures
        v@.len() == marker_dirs().len(),
        forall|i: int| 0 <= i < v@.len() ==> v@[i]@ == #[trigger] marker_dirs()[i],
{
    vec![".git"]
}

fn marker_glob_list() -> (v: Vec<&'static str>)
    ensures
        v@.len() == marker_globs().len(),
        forall|i: int| 0 <= i < v@.len() ==> v@[i]@ == #[trigger] marker_globs()[i],
{
    vec![".sln", ".csproj", ".fsproj", ".cabal"]
}

pub(crate) fn system_dir_list() -> (v: Vec<&'static str>)
    ensures
        v@.len() == system_dirs().len(),
        forall|i: int| 0 <= i < v@.len() ==> v@[i]@ == #[trigger] system_dirs()[i],
{
    vec![
        "Windows", "Program Files", "Program Files (x86)", "ProgramData", "$Recycle.Bin",
        "System Volume Information", "Recovery", "PerfLogs",
    ]
}

fn container_list() -> (v: Vec<&'static str>)
    ensures
        v@.len() == container_names().len(),
        forall|i: int| 0 <= i < v@.len() ==> v@[i]@ == #[trigger] container_names()[i],
{
    vec![
        "projects", "project", "dev", "code", "src", "source", "workspace", "workspaces",
        "repo", "repos", "git", "work",
    ]
}

/// The type markers, for probing a folder.
pub fn project_type_markers() -> (v: Vec<&'static str>)
    ensures
        v@.len() == type_markers().len(),
        forall|i: int| 0 <= i < v@.len() ==> v@[i]@ == #[trigger] type_markers()[i],
{
    vec![
        "Cargo.toml", "go.mod", "package.json", "CMakeLists.txt", "pom.xml", "build.gradle",
        "build.gradle.kts", "setup.py", "pyproject.toml", "pubspec.yaml", "mix.exs",
        "composer.json", "Gemfile", "Makefile", "Dockerfile",
    ]
}

fn type_name_list() -> (v: Vec<&'static str>)
    ensures
        v@.len() == type_names().len(),
        forall|i: int| 0 <= i < v@.len() ==> v@[i]@ == #[trigger] type_names()[i],
{
    vec![
        "Rust", "Go", "Node.js", "CMake", "Maven", "Gradle", "Gradle", "Python", "Python",
        "Flutter", "Elixir", "PHP", "Ruby", "Make", "Docker",
    ]
}

// ------------------------------------------------------------------
// Recognising a project
// ------------------------------------------------------------------

/// The lower-cased name ends with one of the marker suffixes.
pub open spec fn has_marker_glob(name: Seq<char>) -> bool {
    exists|g: int| 0 <= g < marker_globs().len() && seq_ends_with(spec_lowercase(name), #[trigger] marker_globs()[g])
}

/// A listing of a folder's entry names shows a project: a marker directory
/// name, a marker file name, or a name with a marker suffix occurs.
pub open spec fn listing_shows_project(names: Seq<Seq<char>>) -> bool {
    ||| exists|i: int| 0 <= i < names.len() && marker_dirs().contains(#[trigger] names[i])
    ||| exists|i: int| 0 <= i < names.len() && marker_files().contains(#[trigger] names[i])
    ||| exists|i: int| 0 <= i < names.len() && has_marker_glob(#[trigger] names[i])
}

fn has_marker_glob_exec(name: &str) -> (r: bool)
    ensures
        r == has_marker_glob(name@),
{
    let lower = to_lowercase(name);
    let globs = marker_glob_list();
    let mut g: usize = 0;
    while g < globs.len()
        invariant
            g <= globs@.len(),
            globs@.len() == marker_globs().len(),
            forall|i: int| 0 <= i < globs@.len() ==> globs@[i]@ == #[trigger] marker_globs()[i],
            lower@ == spec_lowercase(name@),
            forall|j: int| 0 <= j < g ==> !seq_ends_with(spec_lowercase(name@), #[trigger] marker_globs()[j]),
        decreases globs@.len() - g,
    {
        if ends_with(lower.as_str(), globs[g]) {
            return true;
        }
        g = g + 1;
    }
    false
}

/// Whether a folder whose entries have these names is a project (the listing
/// was read once; the names are the entries' file names).
pub fn is_project_dir_from_entries(entry_names: &Vec<String>) -> (r: bool)
    ensures
        r == listing_shows_project(crate::tree::string_views(entry_names@)),
{
    let ghost names = crate::tree::string_views(entry_names@);
    let dirs = project_marker_dirs();
    let files = project_marker_files();
    let mut i: usize = 0;
    while i < entry_names.len()
        invariant
            i <= entry_names@.len() == names.len(),
            names == crate::tree::string_views(entry_names@),
            dirs@.len() == marker_dirs().len(),
            forall|k: int| 0 <= k < dirs@.len() ==> dirs@[k]@ == #[trigger] marker_dirs()[k],
            forall|j: int| 0 <= j < i ==> !marker_dirs().contains(#[trigger] names[j]),
        decreases entry_names@.len() - i,
    {
        if str_in_literals(entry_names[i].as_str(), &dirs, Ghost(marker_dirs())) {
            assert(marker_dirs().contains(names[i as int]));
            return true;
        }
        i = i + 1;
    }
    let mut i: usize = 0;
    while i < entry_names.len()
        invariant
            i <= entry_names@.len() == names.len(),
            names == crate::tree::string_views(entry_names@),
            files@.len() == marker_files().len(),
            forall|k: int| 0 <= k < files@.len() ==> files@[k]@ == #[trigger] marker_files()[k],
            forall|j: int| 0 <= j < i ==> !marker_files().contains(#[trigger] names[j]),
        decreases entry_names@.len() - i,
    {
        if str_in_literals(entry_names[i].as_str(), &files, Ghost(marker_files())) {
            assert(marker_files().contains(names[i as int]));
            return true;
        }
        i = i + 1;
    }
    let mut i: usize = 0;
    while i < entry_names.len()
        invariant
            i <= entry_names@.len() == names.len(),
            names == crate::tree::string_views(entry_names@),
            forall|j: int| 0 <= j < i ==> !has_marker_glob(#[trigger] names[j]),
        decreases entry_names@.len() - i,
    {
        if has_marker_glob_exec(entry_names[i].as_str()) {
            assert(has_marker_glob(names[i as int]));
            return true;
        }
        i = i + 1;
    }
    false
}

/// What probing a folder for project markers found.
pub struct ProjectProbe {
    /// For each of `project_marker_dirs()`, whether the folder holds a
    /// directory of that name.
    pub marker_dirs: Vec<bool>,
    /// For each of `project_marker_files()`, whether the folder holds a file
    /// of that name.
    pub marker_files: Vec<bool>,
    /// The names of the folder's entries, if it could be listed.
    pub listing: Option<Vec<String>>,
}

/// A probe shows a project: a marker directory or file is there, or an entry
/// name has a marker suffix.
pub open spec fn probe_shows_project(p: ProjectProbe) -> bool {
    ||| exists|i: int| 0 <= i < p.marker_dirs@.len() && #[trigger] p.marker_dirs@[i]
    ||| exists|i: int| 0 <= i < p.marker_files@.len() && #[trigger] p.marker_files@[i]
    ||| match p.listing {
        Some(names) => exists|i: int| 0 <= i < names@.len() && has_marker_glob(#[trigger] names@[i]@),
        None => false,
    }
}

fn any_true(v: &Vec<bool>) -> (r: bool)
    ensures
        r == exists|i: int| 0 <= i < v@.len() && #[trigger] v@[i],
{
    let mut i: usize = 0;
    while i < v.len()
        invariant
            i <= v@.len(),
            forall|j: int| 0 <= j < i ==> !#[trigger] v@[j],
        decreases v@.len() - i,
    {
        if v[i] {
            return true;
        }
        i = i + 1;
    }
    false
}

/// Whether a probed folder is a project.
pub fn is_project_dir(probe: &ProjectProbe) -> (r: bool)
    ensures
        r == probe_shows_project(*probe),
{
    if any_true(&probe.marker_dirs) {
        return true;
    }
    if any_true(&probe.marker_files) {
        return true;
    }
    match &probe.listing {
        Some(names) => {
            let mut i: usize = 0;
            while i < names.len()
                invariant
                    i <= names@.len(),
                    probe.listing == Some(*names),
                    forall|j: int| 0 <= j < i ==> !has_marker_glob(#[trigger] names@[j]@),
                decreases names@.len() - i,
            {
                if has_marker_glob_exec(names[i].as_str()) {
                    assert(has_marker_glob(names@[i as int]@));
                    let ghost ln = probe.listing->0;
                    assert(ln@[i as int]@ == names@[i as int]@);
                    assert(exists|k: int| 0 <= k < ln@.len() && has_marker_glob(#[trigger] ln@[k]@));
                    return true;
                }
                i = i + 1;
            }
            false
        },
        None => false,
    }
}

// ------------------------------------------------------------------
// Project type
// ------------------------------------------------------------------

/// The type told by the first marker (in priority order) that is present.
pub open spec fn type_from_markers(present: Seq<bool>, i: int) -> Option<Seq<char>>
    decreases type_markers().len() - i,
{
    if i < 0 || i >= type_markers().len() || i >= present.len() {
        None
    } else if present[i] {
        Some(type_names()[i])
    } else {
        type_from_markers(present, i + 1)
    }
}

/// The type that one lower-cased entry name tells, if any.
pub open spec fn type_of_listed_name(lower: Seq<char>) -> Option<Seq<char>> {
    if seq_ends_with(lower, ".sln"@) {
        Some("VS Solution"@)
    } else if seq_ends_with(lower, ".cabal"@) || lower == "stack.yaml"@ {
        Some("Haskell"@)
    } else if lower == "rebar.config"@ {
        Some("Erlang"@)
    } else {
        None
    }
}

/// The type told by the first entry name that tells one.
pub open spec fn type_from_listing(names: Seq<Seq<char>>) -> Option<Seq<char>>
    decreases names.len(),
{
    if names.len() == 0 {
        None
    } else {
        match type_of_listed_name(spec_lowercase(names[0])) {
            Some(t) => Some(t),
            None => type_from_listing(names.drop_first()),
        }
    }
}

/// Law: probing a folder and reading its listing agree: when the probe's
/// marker flags say exactly which markers the listing names (a present
/// ".git" is a directory and the present marker files are files) and its
/// listing is that listing, the probe shows a project exactly when the
/// listing does.
pub proof fn law_probe_agrees_with_listing(p: ProjectProbe, names: Seq<Seq<char>>)
    requires
        p.listing matches Some(v) && crate::tree::string_views(v@) == names,
        p.marker_dirs@.len() == marker_dirs().len(),
        p.marker_files@.len() == marker_files().len(),
        forall|i: int| 0 <= i < p.marker_dirs@.len() ==> #[trigger] p.marker_dirs@[i] == names.contains(marker_dirs()[i]),
        forall|i: int| 0 <= i < p.marker_files@.len() ==> #[trigger] p.marker_files@[i] == names.contains(marker_files()[i]),
    ensures
        probe_shows_project(p) == listing_shows_project(names),
{
    let v = p.listing->0;
    if exists|i: int| 0 <= i < p.marker_dirs@.len() && #[trigger] p.marker_dirs@[i] {
        let i = choose|i: int| 0 <= i < p.marker_dirs@.len() && #[trigger] p.marker_dirs@[i];
        assert(names.contains(marker_dirs()[i]));
        let j = choose|j: int| 0 <= j < names.len() && names[j] == marker_dirs()[i];
        assert(marker_dirs().contains(names[j]));
    }
    if exists|i: int| 0 <= i < names.len() && marker_dirs().contains(#[trigger] names[i]) {
        let j = choose|j: int| 0 <= j < names.len() && marker_dirs().contains(#[trigger] names[j]);
        let i = choose|i: int| 0 <= i < marker_dirs().len() && marker_dirs()[i] == names[j];
        assert(names.contains(marker_dirs()[i]));
        assert(p.marker_dirs@[i]);
    }
    if exists|i: int| 0 <= i < p.marker_files@.len() && #[trigger] p.marker_files@[i] {
        let i = choose|i: int| 0 <= i < p.marker_files@.len() && #[trigger] p.marker_files@[i];
        assert(names.contains(marker_files()[i]));
        let j = choose|j: int| 0 <= j < names.len() && names[j] == marker_files()[i];
        assert(marker_files().contains(names[j]));
    }
    if exists|i: int| 0 <= i < names.len() && marker_files().contains(#[trigger] names[i]) {
        let j = choose|j: int| 0 <= j < names.len() && marker_files().contains(#[trigger] names[j]);
        let i = choose|i: int| 0 <= i < marker_files().len() && marker_files()[i] == names[j];
        assert(names.contains(marker_files()[i]));
        assert(p.marker_files@[i]);
    }
    if exists|i: int| 0 <= i < v@.len() && has_marker_glob(#[trigger] v@[i]@) {
        let i = choose|i: int| 0 <= i < v@.len() && has_marker_glob(#[trigger] v@[i]@);
        assert(names[i] == v@[i]@);
    }
    if exists|i: int| 0 <= i < names.len() && has_marker_glob(#[trigger] names[i]) {
        let i = choose|i: int| 0 <= i < names.len() && has_marker_glob(#[trigger] names[i]);
        assert(names[i] == v@[i]@);
    }
}

/// What probing a folder for its project type found.
pub struct TypeProbe {
    /// For each of `project_type_markers()`, whether it exists in the folder.
    pub markers: Vec<bool>,
    /// The names of the folder's entries, if it could be listed.
    pub listing: Option<Vec<String>>,
}

/// The project type of a probed folder: that of the first present marker;
/// else that of the first entry name that tells one; else "Other".
pub open spec fn spec_project_type(p: TypeProbe) -> Seq<char> {
    match type_from_markers(p.markers@, 0) {
        Some(t) => t,
        None => match p.listing {
            Some(names) => match type_from_listing(crate::tree::string_views(names@)) {
                Some(t) => t,
                None => "Other"@,
            },
            None => "Other"@,
        },
    }
}

fn type_of_listed_name_exec(name: &str) -> (r: Option<&'static str>)
    ensures
        match r {
            Some(t) => type_of_listed_name(spec_lowercase(name@)) == Some(t@),
            None => type_of_listed_name(spec_lowercase(name@)) is None,
        },
{
    let lower = to_lowercase(name);
    if ends_with(lower.as_str(), ".sln") {
        Some("VS Solution")
    } else if ends_with(lower.as_str(), ".cabal") || str_eq(lower.as_str(), "stack.yaml") {
        Some("Haskell")
    } else if str_eq(lower.as_str(), "rebar.config") {
        Some("Erlang")
    } else {
        None
    }
}

/// The type of a probed project folder, in order of priority.
pub fn detect_project_type(probe: &TypeProbe) -> (r: String)
    ensures
        r@ == spec_project_type(*probe),
{
    let names = type_name_list();
    let mut i: usize = 0;
    while i < probe.markers.len() && i < names.len()
        invariant
            i <= probe.markers@.len() || i <= names@.len(),
            i <= names@.len(),
            names@.len() == type_names().len() == type_markers().len(),
            forall|k: int| 0 <= k < names@.len() ==> names@[k]@ == #[trigger] type_names()[k],
            type_from_markers(probe.markers@, 0) == type_from_markers(probe.markers@, i as int),
        decreases names@.len() - i,
    {
        if probe.markers[i] {
            return String::from_str(names[i]);
        }
        i = i + 1;
    }
    assert(type_from_markers(probe.markers@, i as int) is None);
    match &probe.listing {
        Some(listing) => {
            assert(probe.listing->0 == *listing);
            let ghost ns = crate::tree::string_views(listing@);
            assert(ns.skip(0) =~= ns);
            let mut j: usize = 0;
            while j < listing.len()
                invariant
                    j <= listing@.len() == ns.len(),
                    probe.listing == Some(*listing),
                    type_from_markers(probe.markers@, 0) is None,
                    ns == crate::tree::string_views(listing@),
                    type_from_listing(ns) == type_from_listing(ns.skip(j as int)),
                decreases listing@.len() - j,
            {
                proof {
                    assert(ns.skip(j as int).drop_first() =~= ns.skip(j as int + 1));
                    assert(ns.skip(j as int)[0] == listing@[j as int]@);
                }
                match type_of_listed_name_exec(listing[j].as_str()) {
                    Some(t) => {
                        assert(type_from_listing(ns.skip(j as int)) == Some(t@));
                        return String::from_str(t);
                    },
                    None => {},
                }
                j = j + 1;
            }
            proof {
                assert(ns.skip(j as int).len() == 0);
            }
            String::from_str("Other")
        },
        None => String::from_str("Other"),
    }
}

proof fn lemma_no_marker_type(present: Seq<bool>, i: int)
    requires
        forall|j: int| 0 <= j < present.len() ==> !#[trigger] present[j],
    ensures
        type_from_markers(present, i) is None,
    decreases type_markers().len() - i,
{
    if 0 <= i < type_markers().len() && i < present.len() {
        lemma_no_marker_type(present, i + 1);
    }
}

proof fn lemma_listing_skip(ns: Seq<Seq<char>>, k: int)
    requires
        0 <= k <= ns.len(),
        forall|j: int| 0 <= j < k ==> type_of_listed_name(spec_lowercase(#[trigger] ns[j])) is None,
    ensures
        type_from_listing(ns) == type_from_listing(ns.subrange(k, ns.len() as int)),
    decreases k,
{
    if k == 0 {
        assert(ns.subrange(0, ns.len() as int) =~= ns);
    } else {
        let rest = ns.drop_first();
        assert(type_of_listed_name(spec_lowercase(ns[0])) is None);
        assert forall|j: int| 0 <= j < k - 1 implies type_of_listed_name(spec_lowercase(#[trigger] rest[j])) is None by {
            assert(rest[j] == ns[j + 1]);
        }
        lemma_listing_skip(rest, k - 1);
        assert(rest.subrange(k - 1, rest.len() as int) =~= ns.subrange(k, ns.len() as int));
    }
}

/// Law: where no type marker file is present, the type comes from the
/// first entry name that tells one, taken in lower case: a name ending in
/// ".sln" tells "VS Solution"; else one ending in ".cabal", or "stack.yaml",
/// tells "Haskell"; else "rebar.config" tells "Erlang".
pub proof fn law_listing_tells_type(p: TypeProbe, k: int)
    requires
        forall|i: int| 0 <= i < p.markers@.len() ==> !#[trigger] p.markers@[i],
        p.listing is Some,
        0 <= k < p.listing->0@.len(),
        forall|j: int|
            0 <= j < k ==> {
                let l = spec_lowercase((#[trigger] p.listing->0@[j])@);
                !seq_ends_with(l, ".sln"@) && !seq_ends_with(l, ".cabal"@) && l != "stack.yaml"@ && l
                    != "rebar.config"@
            },
    ensures
        ({
            let l = spec_lowercase(p.listing->0@[k]@);
            &&& seq_ends_with(l, ".sln"@) ==> spec_project_type(p) == "VS Solution"@
            &&& !seq_ends_with(l, ".sln"@) && (seq_ends_with(l, ".cabal"@) || l == "stack.yaml"@) ==> spec_project_type(p)
                == "Haskell"@
            &&& !seq_ends_with(l, ".sln"@) && !seq_ends_with(l, ".cabal"@) && l == "rebar.config"@
                ==> spec_project_type(p) == "Erlang"@
        }),
{
    let v = p.listing->0;
    let ns = crate::tree::string_views(v@);
    lemma_no_marker_type(p.markers@, 0);
    assert forall|j: int| 0 <= j < k implies type_of_listed_name(spec_lowercase(#[trigger] ns[j])) is None by {
        assert(ns[j] == v@[j]@);
    }
    lemma_listing_skip(ns, k);
    let rest = ns.subrange(k, ns.len() as int);
    assert(rest[0] == v@[k]@);
    reveal_strlit("rebar.config");
    reveal_strlit("stack.yaml");
}

/// Law: where no type marker file is present and no entry name tells a
/// type (none, in lower case, ends in ".sln" or ".cabal" or is "stack.yaml"
/// or "rebar.config"), or the folder could not be listed, the type is
/// "Other".
pub proof fn law_untold_type_is_other(p: TypeProbe)
    requires
        forall|i: int| 0 <= i < p.markers@.len() ==> !#[trigger] p.markers@[i],
        p.listing matches Some(v) ==> forall|j: int|
            0 <= j < v@.len() ==> {
                let l = spec_lowercase((#[trigger] v@[j])@);
                !seq_ends_with(l, ".sln"@) && !seq_ends_with(l, ".cabal"@) && l != "stack.yaml"@ && l
                    != "rebar.config"@
            },
    ensures
        spec_project_type(p) == "Other"@,
{
    lemma_no_marker_type(p.markers@, 0);
    if p.listing is Some {
        let v = p.listing->0;
        let ns = crate::tree::string_views(v@);
        assert forall|j: int| 0 <= j < ns.len() implies type_of_listed_name(spec_lowercase(#[trigger] ns[j])) is None by {
            assert(ns[j] == v@[j]@);
        }
        lemma_listing_skip(ns, ns.len() as int);
        assert(ns.subrange(ns.len() as int, ns.len() as int).len() == 0);
    }
}

/// A project entry for a folder that the disk scan found.
pub open spec fn spec_project_info(
    file_name: Option<String>,
    path: Seq<char>,
    project_type: Seq<char>,
    now: Seq<char>,
    p: ProjectInfo,
) -> bool {
    &&& p.name@ == match file_name {
        Some(n) => n@,
        None => path,
    }
    &&& p.path@ == path
    &&& p.description@ == Seq::<char>::empty()
    &&& p.tags@.len() == 1
    &&& p.tags@[0]@ == project_type
    &&& p.added_date@ == now
    &&& p.auto_discovered
    &&& p.project_type@ == project_type
}

/// The project entry for a found folder: named after its last path component
/// (or its whole path), tagged with its type, marked as found by the scan.
pub fn create_project_info(
    file_name: Option<String>,
    path: String,
    project_type: String,
    now: String,
) -> (p: ProjectInfo)
    ensures
        spec_project_info(file_name, path@, project_type@, now@, p),
{
    let name = match &file_name {
        Some(n) => n.clone(),
        None => path.clone(),
    };
    let tag = project_type.clone();
    ProjectInfo {
        name,
        path,
        description: String::new(),
        tags: vec![tag],
        added_date: now,
        auto_discovered: true,
        project_type,
    }
}

// ------------------------------------------------------------------
// Containers and top-level folders
// ------------------------------------------------------------------

/// A folder name is a project container when its lower-cased form is one of
/// `container_names()`.
pub open spec fn spec_is_container(name: Seq<char>) -> bool {
    container_names().contains(spec_lowercase(name))
}

/// Whether a folder of this name usually holds projects.
pub fn is_project_container(name: &str) -> (r: bool)
    ensures
        r == spec_is_container(name@),
{
    let lower = to_lowercase(name);
    str_in_literals(lower.as_str(), &container_list(), Ghost(container_names()))
}

/// A folder that the disk scan may descend into.
pub struct DirCandidate {
    pub path: String,
    /// The folder's last path component ("" where it has none).
    pub name: String,
}

/// A candidate's priority: whether its lower-cased name names a container.
pub open spec fn candidate_priority(c: DirCandidate) -> bool {
    spec_is_container(spec_lowercase(c.name@))
}

struct PriorityOrder {
    prio: Vec<bool>,
}

impl PositionOrder for PriorityOrder {
    closed spec fn spec_len(&self) -> nat {
        self.prio@.len()
    }

    closed spec fn before(&self, i: int, j: int) -> bool {
        (self.prio@[i] && !self.prio@[j]) || (self.prio@[i] == self.prio@[j] && i < j)
    }

    proof fn lemma_irreflexive(&self, i: int) {
    }

    proof fn lemma_transitive(&self, i: int, j: int, k: int) {
    }

    proof fn lemma_total(&self, i: int, j: int) {
    }

    fn count(&self) -> (n: usize) {
        self.prio.len()
    }

    fn is_before(&self, i: usize, j: usize) -> (r: bool) {
        (self.prio[i] && !self.prio[j]) || (self.prio[i] == self.prio[j] && i < j)
    }
}

/// `out` is `dirs` stably sorted with the containers first.
pub open spec fn is_priority_order(dirs: Seq<DirCandidate>, out: Seq<DirCandidate>) -> bool {
    &&& out.len() == dirs.len()
    &&& exists|perm: Seq<int>|
        {
            &&& perm.len() == dirs.len()
            &&& forall|k: int| 0 <= k < dirs.len() ==> #[trigger] perm.contains(k)
            &&& forall|a: int| 0 <= a < perm.len() ==> 0 <= #[trigger] perm[a] < dirs.len()
            &&& forall|a: int| 0 <= a < perm.len() ==> out[a] == dirs[#[trigger] perm[a]]
            &&& forall|a: int, b: int|
                #![trigger perm[a], perm[b]]
                0 <= a < b < perm.len() ==> {
                    let pa = candidate_priority(dirs[perm[a]]);
                    let pb = candidate_priority(dirs[perm[b]]);
                    (pa && !pb) || (pa == pb && perm[a] < perm[b])
                }
        }
}

/// Puts the project containers first, keeping the order otherwise.
pub fn sort_dirs_by_priority(dirs: &mut Vec<DirCandidate>)
    ensures
        is_priority_order(old(dirs)@, final(dirs)@),
{
    let ghost d0 = dirs@;
    let mut prio: Vec<bool> = Vec::new();
    let mut i: usize = 0;
    while i < dirs.len()
        invariant
            i <= dirs@.len(),
            dirs@ == d0,
            prio@.len() == i,
            forall|j: int| 0 <= j < i ==> prio@[j] == candidate_priority(#[trigger] d0[j]),
        decreases dirs@.len() - i,
    {
        let lower = to_lowercase(dirs[i].name.as_str());
        prio.push(is_project_container(lower.as_str()));
        i = i + 1;
    }
    let order = PriorityOrder { prio };
    let perm = stable_sort_indices(&order);
    let mut out: Vec<DirCandidate> = Vec::new();
    let mut a: usize = 0;
    while a < perm.len()
        invariant
            a <= perm@.len(),
            dirs@ == d0,
            is_sorted_permutation(&order, perm@),
            order.prio@.len() == d0.len(),
            forall|j: int| 0 <= j < d0.len() ==> order.prio@[j] == candidate_priority(#[trigger] d0[j]),
            out@.len() == a,
            forall|b: int| 0 <= b < a ==> #[trigger] out@[b] == d0[perm@[b] as int],
        decreases perm@.len() - a,
    {
        out.push(clone_candidate(&dirs[perm[a]]));
        a = a + 1;
    }
    proof {
        let p = perm@.map_values(|x: usize| x as int);
        assert forall|k: int| 0 <= k < d0.len() implies #[trigger] p.contains(k) by {
            assert(perm@.contains(k as usize));
            let b = choose|b: int| 0 <= b < perm@.len() && perm@[b] == k as usize;
            assert(p[b] == k);
        }
        assert forall|b: int| 0 <= b < p.len() implies 0 <= #[trigger] p[b] < d0.len() by {}
        assert forall|b: int| 0 <= b < p.len() implies out@[b] == d0[#[trigger] p[b]] by {}
        assert forall|b1: int, b2: int| #![trigger p[b1], p[b2]] 0 <= b1 < b2 < p.len() implies {
            let pa = candidate_priority(d0[p[b1]]);
            let pb = candidate_priority(d0[p[b2]]);
            (pa && !pb) || (pa == pb && p[b1] < p[b2])
        } by {
            assert(order.before(perm@[b1] as int, perm@[b2] as int));
        }
        assert(p.len() == d0.len());
        assert(out@.len() == d0.len());
        assert(is_priority_order(d0, out@));
    }
    *dirs = out;
}

fn clone_candidate(c: &DirCandidate) -> (r: DirCandidate)
    ensures
        r == *c,
{
    DirCandidate { path: c.path.clone(), name: c.name.clone() }
}

} // verus!
