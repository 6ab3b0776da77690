//! File categories, decided by a file's extension.
use vstd::prelude::*;
use crate::text::{spec_lowercase, str_in_literals, to_lowercase, ascii_lower, ascii_upper};

verus! {

/// The kind of a file, as far as the extension tells.
#[derive(Clone, Copy, Debug, PartialEq, Eq, Hash, Structural)]
pub enum FileCategory {
    Code,
    Image,
    Video,
    Document,
    Archive,
    Other,
}

/// Extensions (lower case) of source code and configuration files.
pub open spec fn code_extensions() -> Seq<Seq<char>> {
    seq![
        "rs"@, "py"@, "js"@, "jsx"@, "tsx"@, "go"@, "java"@, "c"@, "cpp"@, "h"@,
        "hpp"@, "cs"@, "rb"@, "php"@, "swift"@, "kt"@, "kts"@, "scala"@, "r"@, "lua"@,
        "sh"@, "bash"@, "zsh"@, "fish"@, "ps1"@, "bat"@, "cmd"@, "sql"@, "html"@, "css"@,
        "scss"@, "sass"@, "less"@, "xml"@, "json"@, "yaml"@, "yml"@, "toml"@, "ini"@,
        "cfg"@, "conf"@, "vue"@, "svelte"@, "dart"@, "ex"@, "exs"@, "erl"@, "hrl"@,
        "hs"@, "elm"@, "clj"@, "cljs"@, "edn"@, "ml"@, "mli"@, "nim"@, "zig"@, "v"@,
        "proto"@, "cmake"@, "gradle"@, "lock"@, "sln"@, "csproj"@, "fsproj"@, "ts"@
    ]
}

/// Extensions (lower case) of image files.
pub open spec fn image_extensions() -> Seq<Seq<char>> {
    seq![
        "png"@, "jpg"@, "jpeg"@, "gif"@, "bmp"@, "webp"@, "svg"@, "ico"@, "tiff"@,
        "tif"@, "heic"@, "heif"@, "avif"@
    ]
}

/// Extensions (lower case) of video files.
pub open spec fn video_extensions() -> Seq<Seq<char>> {
    seq![
        "mp4"@, "avi"@, "mkv"@, "mov"@, "wmv"@, "flv"@, "webm"@, "m4v"@, "mpg"@,
        "mpeg"@, "3gp"@, "ogv"@, "m2ts"@
    ]
}

/// Extensions (lower case) of documents.
pub open spec fn document_extensions() -> Seq<Seq<char>> {
    seq![
        "pdf"@, "doc"@, "docx"@, "xls"@, "xlsx"@, "ppt"@, "pptx"@, "odt"@, "ods"@,
        "odp"@, "rtf"@, "txt"@, "md"@, "rst"@, "tex"@, "csv"@, "tsv"@, "log"@,
        "epub"@, "mobi"@
    ]
}

/// Extensions (lower case) of archives and packages.
pub open spec fn archive_extensions() -> Seq<Seq<char>> {
    seq![
        "zip"@, "rar"@, "7z"@, "tar"@, "gz"@, "bz2"@, "xz"@, "lz"@, "lz4"@, "zst"@,
        "cab"@, "iso"@, "dmg"@, "pkg"@, "deb"@, "rpm"@, "apk"@, "jar"@, "war"@,
        "tgz"@, "tbz2"@, "txz"@
    ]
}

/// The category of an extension that is already in lower case: the first list
/// that holds it decides, and an extension in none of them is `Other`.
pub open spec fn category_of(ext: Seq<char>) -> FileCategory {
    if code_extensions().contains(ext) {
        FileCategory::Code
    } else if image_extensions().contains(ext) {
        FileCategory::Image
    } else if video_extensions().contains(ext) {
        FileCategory::Video
    } else if document_extensions().contains(ext) {
        FileCategory::Document
    } else if archive_extensions().contains(ext) {
        FileCategory::Archive
    } else {
        FileCategory::Other
    }
}

/// The six categories, in the order in which the statistics list them.
pub open spec fn all_categories() -> Seq<FileCategory> {
    seq![
        FileCategory::Code,
        FileCategory::Image,
        FileCategory::Video,
        FileCategory::Document,
        FileCategory::Archive,
        FileCategory::Other,
    ]
}

/// Position of a category in `all_categories()`.
pub open spec fn category_index(c: FileCategory) -> int {
    match c {
        FileCategory::Code => 0,
        FileCategory::Image => 1,
        FileCategory::Video => 2,
        FileCategory::Document => 3,
        FileCategory::Archive => 4,
        FileCategory::Other => 5,
    }
}

fn code_list() -> (v: Vec<&'static str>)
    ensures
        v@.len() == code_extensions().len(),
        forall|i: int| 0 <= i < v@.len() ==> v@[i]@ == #[trigger] code_extensions()[i],
{
    vec![
        "rs", "py", "js", "jsx", "tsx", "go", "java", "c", "cpp", "h",
        "hpp", "cs", "rb", "php", "swift", "kt", "kts", "scala", "r", "lua",
        "sh", "bash", "zsh", "fish", "ps1", "bat", "cmd", "sql", "html", "css",
        "scss", "sass", "less", "xml", "json", "yaml", "yml", "toml", "ini",
        "cfg", "conf", "vue", "svelte", "dart", "ex", "exs", "erl", "hrl",
        "hs", "elm", "clj", "cljs", "edn", "ml", "mli", "nim", "zig", "v",
        "proto", "cmake", "gradle", "lock", "sln", "csproj", "fsproj", "ts",
    ]
}

fn image_list() -> (v: Vec<&'static str>)
    ensures
        v@.len() == image_extensions().len(),
        forall|i: int| 0 <= i < v@.len() ==> v@[i]@ == #[trigger] image_extensions()[i],
{
    vec![
        "png", "jpg", "jpeg", "gif", "bmp", "webp", "svg", "ico", "tiff",
        "tif", "heic", "heif", "avif",
    ]
}

fn video_list() -> (v: Vec<&'static str>)
    ensures
        v@.len() == video_extensions().len(),
        forall|i: int| 0 <= i < v@.len() ==> v@[i]@ == #[trigger] video_extensions()[i],
{
    vec![
        "mp4", "avi", "mkv", "mov", "wmv", "flv", "webm", "m4v", "mpg",
        "mpeg", "3gp", "ogv", "m2ts",
    ]
}

fn document_list() -> (v: Vec<&'static str>)
    ensures
        v@.len() == document_extensions().len(),
        forall|i: int| 0 <= i < v@.len() ==> v@[i]@ == #[trigger] document_extensions()[i],
{
    vec![
        "pdf", "doc", "docx", "xls", "xlsx", "ppt", "pptx", "odt", "ods",
        "odp", "rtf", "txt", "md", "rst", "tex", "csv", "tsv", "log",
        "epub", "mobi",
    ]
}

fn archive_list() -> (v: Vec<&'static str>)
    ensures
        v@.len() == archive_extensions().len(),
        forall|i: int| 0 <= i < v@.len() ==> v@[i]@ == #[trigger] archive_extensions()[i],
{
    vec![
        "zip", "rar", "7z", "tar", "gz", "bz2", "xz", "lz", "lz4", "zst",
        "cab", "iso", "dmg", "pkg", "deb", "rpm", "apk", "jar", "war",
        "tgz", "tbz2", "txz",
    ]
}

impl FileCategory {
    /// The category of an extension that is already in lower case.
    pub fn from_lowercase_extension(ext: &str) -> (c: FileCategory)
        ensures
            c == category_of(ext@),
    {
        if str_in_literals(ext, &code_list(), Ghost(code_extensions())) {
            FileCategory::Code
        } else if str_in_literals(ext, &image_list(), Ghost(image_extensions())) {
            FileCategory::Image
        } else if str_in_literals(ext, &video_list(), Ghost(video_extensions())) {
            FileCategory::Video
        } else if str_in_literals(ext, &document_list(), Ghost(document_extensions())) {
            FileCategory::Document
        } else if str_in_literals(ext, &archive_list(), Ghost(archive_extensions())) {
            FileCategory::Archive
        } else {
            FileCategory::Other
        }
    }

    /// The category of an extension, in any case: the extension is put in
    /// lower case with `str::to_lowercase` first.
    pub fn from_extension(ext: &str) -> (c: FileCategory)
        ensures
            c == category_of(spec_lowercase(ext@)),
            vstd::utf8::is_ascii_chars(ext@) ==> c == category_of(ascii_lower(ext@)),
    {
        let lower = to_lowercase(ext);
        FileCategory::from_lowercase_extension(lower.as_str())
    }

    /// All six categories, in a fixed order.
    pub fn all() -> (v: Vec<FileCategory>)
        ensures
            v@ == all_categories(),
    {
        let v = vec![
            FileCategory::Code,
            FileCategory::Image,
            FileCategory::Video,
            FileCategory::Document,
            FileCategory::Archive,
            FileCategory::Other,
        ];
        assert(v@ =~= all_categories());
        v
    }

    /// The category's name as the interface shows it.
    pub fn display_name(&self) -> (s: &'static str)
        ensures
            s@ == match *self {
                FileCategory::Code => "代码"@,
                FileCategory::Image => "图片"@,
                FileCategory::Video => "视频"@,
                FileCategory::Document => "文档"@,
                FileCategory::Archive => "压缩包"@,
                FileCategory::Other => "其他"@,
            },
    {
        match self {
            FileCategory::Code => "代码",
            FileCategory::Image => "图片",
            FileCategory::Video => "视频",
            FileCategory::Document => "文档",
            FileCategory::Archive => "压缩包",
            FileCategory::Other => "其他",
        }
    }

    /// The category's colour, as red, green and blue components.
    pub fn color(&self) -> (rgb: (u8, u8, u8))
        ensures
            rgb == match *self {
                FileCategory::Code => (100u8, 180u8, 255u8),
                FileCategory::Image => (255u8, 150u8, 100u8),
                FileCategory::Video => (200u8, 100u8, 255u8),
                FileCategory::Document => (100u8, 255u8, 150u8),
                FileCategory::Archive => (255u8, 200u8, 100u8),
                FileCategory::Other => (180u8, 180u8, 180u8),
            },
    {
        match self {
            FileCategory::Code => (100, 180, 255),
            FileCategory::Image => (255, 150, 100),
            FileCategory::Video => (200, 100, 255),
            FileCategory::Document => (100, 255, 150),
            FileCategory::Archive => (255, 200, 100),
            FileCategory::Other => (180, 180, 180),
        }
    }

    /// A short textual icon for the category.
    pub fn icon(&self) -> (s: &'static str)
        ensures
            s@ == match *self {
                FileCategory::Code => "{}"@,
                FileCategory::Image => "[i]"@,
                FileCategory::Video => "[v]"@,
                FileCategory::Document => "[d]"@,
                FileCategory::Archive => "[z]"@,
                FileCategory::Other => "[o]"@,
            },
    {
        match self {
            FileCategory::Code => "{}",
            FileCategory::Image => "[i]",
            FileCategory::Video => "[v]",
            FileCategory::Document => "[d]",
            FileCategory::Archive => "[z]",
            FileCategory::Other => "[o]",
        }
    }
}

/// Law: for an ASCII extension, the category does not depend on the case of
/// its letters: its lower-case and its upper-case forms are ASCII too, and
/// all three have the same lower-casing (which, by `from_extension`, decides
/// the category of an ASCII extension).
pub proof fn law_category_ignores_ascii_case(ext: Seq<char>)
    requires
        vstd::utf8::is_ascii_chars(ext),
    ensures
        vstd::utf8::is_ascii_chars(ascii_lower(ext)),
        vstd::utf8::is_ascii_chars(ascii_upper(ext)),
        ascii_lower(ascii_lower(ext)) == ascii_lower(ext),
        ascii_lower(ascii_upper(ext)) == ascii_lower(ext),
{
    assert(ascii_lower(ascii_lower(ext)) =~= ascii_lower(ext));
    assert(ascii_lower(ascii_upper(ext)) =~= ascii_lower(ext));
}

} // verus!
