//! Plain data shared by the scanner, the preview and the application state.
use vstd::prelude::*;

verus! {

/// A project folder that the manager keeps track of.
pub struct ProjectInfo {
    pub name: String,
    pub path: String,
    pub description: String,
    pub tags: Vec<String>,
    pub added_date: String,
    /// Whether the disk scan found it (rather than the user adding it).
    pub auto_discovered: bool,
    /// The kind of project that the disk scan recognised ("Rust", ...).
    pub project_type: String,
}

/// The value of a `ProjectInfo`.
pub struct ProjectView {
    pub name: Seq<char>,
    pub path: Seq<char>,
    pub description: Seq<char>,
    pub tags: Seq<Seq<char>>,
    pub added_date: Seq<char>,
    pub auto_discovered: bool,
    pub project_type: Seq<char>,
}

impl View for ProjectInfo {
    type V = ProjectView;

    open spec fn view(&self) -> ProjectView {
        ProjectView {
            name: self.name@,
            path: self.path@,
            description: self.description@,
            tags: Seq::new(self.tags@.len(), |i: int| self.tags@[i]@),
            added_date: self.added_date@,
            auto_discovered: self.auto_discovered,
            project_type: self.project_type@,
        }
    }
}

/// The values of a sequence of projects.
pub open spec fn project_views(s: Seq<ProjectInfo>) -> Seq<ProjectView> {
    Seq::new(s.len(), |i: int| s[i]@)
}

/// What the background disk scan reports.
pub enum AutoScanProgress {
    /// It started on a new root.
    ScanningDrive(String),
    /// It found a project folder.
    FoundProject(ProjectInfo),
    /// It is done.
    Finished,
}

/// How the file tree orders the children of a directory.
#[derive(Clone, Copy, Debug, PartialEq, Eq, Structural)]
pub enum SortBy {
    Name,
    Size,
    Modified,
}

/// What the preview panel shows.
pub enum PreviewContent {
    /// RGBA pixels and [width, height].
    Image(Vec<u8>, [usize; 2]),
    Text(String),
    Code { text: String, language: String },
    Markdown(String),
    Unsupported(String),
    Loading,
    Empty,
}

} // verus!
