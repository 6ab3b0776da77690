use project_folder_manager::category::FileCategory;
use project_folder_manager::models::{ProjectInfo, SortBy};
use project_folder_manager::tree::FileEntry;
use project_folder_manager::ui::file_tree::{
    file_label, folder_icon, sort_entries, sorted_order,
};
use project_folder_manager::ui::markdown::{classify, lines, render_markdown, MarkdownLine};
use project_folder_manager::ui::sidebar::{
    head_with_ellipsis, project_count_text, project_groups, shorten_path, tail_with_ellipsis,
};

fn file(name: &str, size: u64, modified: Option<i64>) -> FileEntry {
    FileEntry {
        name: name.to_string(),
        path: format!("/p/{}", name),
        is_dir: false,
        size,
        size_recursive: 0,
        category: FileCategory::Other,
        children: Vec::new(),
        last_modified: modified,
    }
}

fn dir(name: &str, children: Vec<FileEntry>) -> FileEntry {
    FileEntry {
        name: name.to_string(),
        path: format!("/p/{}", name),
        is_dir: true,
        size: 0,
        size_recursive: 0,
        category: FileCategory::Other,
        children,
        last_modified: None,
    }
}

fn names(v: &[FileEntry]) -> Vec<String> {
    v.iter().map(|e| e.name.clone()).collect()
}

fn sample() -> Vec<FileEntry> {
    vec![
        file("b.txt", 10, Some(300)),
        dir("Zeta", vec![file("x", 5, None)]),
        file("A.txt", 30, None),
        dir("alpha", vec![]),
        file("c.txt", 10, Some(100)),
    ]
}

#[test]
fn sort_by_name_puts_directories_first_ignoring_case() {
    let mut v = sample();
    sort_entries(&mut v, SortBy::Name, false);
    assert_eq!(names(&v), vec!["alpha", "Zeta", "A.txt", "b.txt", "c.txt"]);
}

#[test]
fn sort_by_name_descending_keeps_directories_first() {
    let mut v = sample();
    sort_entries(&mut v, SortBy::Name, true);
    assert_eq!(names(&v), vec!["Zeta", "alpha", "c.txt", "b.txt", "A.txt"]);
}

#[test]
fn sort_by_size_is_stable_for_equal_sizes() {
    let mut v = sample();
    sort_entries(&mut v, SortBy::Size, false);
    assert_eq!(names(&v), vec!["alpha", "Zeta", "b.txt", "c.txt", "A.txt"]);
    let mut w = sample();
    sort_entries(&mut w, SortBy::Size, true);
    assert_eq!(names(&w), vec!["A.txt", "b.txt", "c.txt", "Zeta", "alpha"]);
}

#[test]
fn sort_by_modified_puts_unknown_times_first() {
    let v = sample();
    assert_eq!(sorted_order(&v, SortBy::Modified, false), vec![1, 2, 3, 4, 0]);
    assert_eq!(sorted_order(&v, SortBy::Modified, true), vec![0, 4, 1, 2, 3]);
}

#[test]
fn sorted_order_of_nothing_is_empty() {
    let v: Vec<FileEntry> = Vec::new();
    assert!(sorted_order(&v, SortBy::Name, false).is_empty());
}

#[test]
fn folder_icons_follow_the_name() {
    assert_eq!(folder_icon(&dir("Source", vec![])), "[src]");
    assert_eq!(folder_icon(&dir("unit_tests", vec![])), "[tst]");
    assert_eq!(folder_icon(&dir("Docs", vec![])), "[doc]");
    assert_eq!(folder_icon(&dir("public", vec![])), "[res]");
    assert_eq!(folder_icon(&dir("target", vec![])), "[bld]");
    assert_eq!(folder_icon(&dir(".github", vec![])), "[cfg]");
    assert_eq!(folder_icon(&dir("node_modules", vec![])), "[pkg]");
    assert_eq!(folder_icon(&dir("misc", vec![])), "[dir]");
    // the first rule that matches decides
    assert_eq!(folder_icon(&dir("test_src", vec![])), "[src]");
}

#[test]
fn file_label_shows_the_size_unless_zero() {
    assert_eq!(file_label("empty.txt", 0), "empty.txt");
    assert_eq!(file_label("a.bin", 2048), "a.bin  (2 KiB)");
    assert_eq!(file_label("b.bin", 5), "b.bin  (5 B)");
}

#[test]
fn shorten_path_keeps_short_paths() {
    assert_eq!(shorten_path("C:\\code\\app", 35), "C:\\code\\app");
    let exact = "a".repeat(35);
    assert_eq!(shorten_path(&exact, 35), exact);
}

#[test]
fn shorten_path_keeps_head_and_tail() {
    let path = "/home/user/projects/some/deeply/nested/folder/app";
    let s = shorten_path(path, 35);
    // 35 / 2 - 2 = 15 bytes at each end
    assert_eq!(s, "/home/user/proj...sted/folder/app");
    assert!(s.len() <= 35);
    assert_eq!(shorten_path("abcdefghij", 8), "ab...ij");
}

#[test]
fn ellipsis_cuts() {
    assert_eq!(head_with_ellipsis("short", 40), "short");
    assert_eq!(head_with_ellipsis("abcdefghij", 4), "abcd...");
    assert_eq!(tail_with_ellipsis("short", 50), "short");
    assert_eq!(tail_with_ellipsis("abcdefghij", 8), "...fghij");
    let long = format!("src/{}", "x".repeat(60));
    let t = tail_with_ellipsis(&long, 50);
    assert_eq!(t.len(), 50);
    assert!(t.starts_with("..."));
}

fn project(name: &str, auto: bool) -> ProjectInfo {
    ProjectInfo {
        name: name.to_string(),
        path: format!("/p/{}", name),
        description: String::new(),
        tags: Vec::new(),
        added_date: String::new(),
        auto_discovered: auto,
        project_type: String::new(),
    }
}

#[test]
fn projects_are_grouped_by_how_they_came() {
    let ps = vec![project("a", false), project("b", true), project("c", false), project("d", true)];
    let (manual, auto) = project_groups(&ps);
    assert_eq!(manual, vec![0, 2]);
    assert_eq!(auto, vec![1, 3]);
    assert_eq!(project_count_text(&ps), "共 4 个项目 (手动: 2, 自动: 2)");
    let only_manual = vec![project("a", false)];
    assert_eq!(project_count_text(&only_manual), "共 1 个项目");
    assert_eq!(project_count_text(&Vec::new()), "共 0 个项目");
}

#[test]
fn lines_follow_str_lines() {
    assert_eq!(lines("a\nb\r\nc"), vec!["a", "b", "c"]);
    assert_eq!(lines("a\n"), vec!["a"]);
    assert_eq!(lines("a\n\nb"), vec!["a", "", "b"]);
    assert!(lines("").is_empty());
    assert_eq!(lines("x\r"), vec!["x\r"]);
    let text = "one\r\ntwo\n\nthree\r";
    let expected: Vec<String> = text.lines().map(|l| l.to_string()).collect();
    assert_eq!(lines(text), expected);
}

#[test]
fn markdown_lines_are_classified() {
    assert!(matches!(classify("### Small"), MarkdownLine::Heading3(t) if t == "Small"));
    assert!(matches!(classify("## Mid"), MarkdownLine::Heading2(t) if t == "Mid"));
    assert!(matches!(classify("# Big"), MarkdownLine::Heading1(t) if t == "Big"));
    assert!(matches!(classify("```rust"), MarkdownLine::Fence(t) if t == "```rust"));
    assert!(matches!(classify("- item"), MarkdownLine::ListItem(t) if t == "  > item"));
    assert!(matches!(classify("* item"), MarkdownLine::ListItem(t) if t == "  > item"));
    assert!(matches!(classify("> quoted"), MarkdownLine::Quote(t) if t == "> quoted"));
    assert!(matches!(classify(""), MarkdownLine::Blank));
    assert!(matches!(classify("#nospace"), MarkdownLine::Plain(t) if t == "#nospace"));
    match classify("run `cargo` now") {
        MarkdownLine::Spans(parts) => assert_eq!(parts, vec!["run ", "cargo", " now"]),
        _ => panic!("expected spans"),
    }
    let rendered = render_markdown("# T\n\n- a");
    assert_eq!(rendered.len(), 3);
    assert!(matches!(&rendered[1], MarkdownLine::Blank));
}

#[test]
fn sort_entries_places_entries_in_sorted_order() {
    for sort_by in [SortBy::Name, SortBy::Size, SortBy::Modified] {
        for descending in [false, true] {
            let unsorted = sample();
            let order = sorted_order(&unsorted, sort_by, descending);
            let mut v = sample();
            sort_entries(&mut v, sort_by, descending);
            let expected: Vec<String> = order.iter().map(|&i| unsorted[i].name.clone()).collect();
            assert_eq!(names(&v), expected);
            let mut seen = order.clone();
            seen.sort();
            assert_eq!(seen, vec![0, 1, 2, 3, 4]);
        }
    }
}

#[test]
fn shorten_path_counts_bytes_of_utf8() {
    let path = "abc项目文件夹的路径很长很长def";
    let s = shorten_path(path, 16);
    assert_eq!(s, "abc项...长def");
    assert!(s.len() <= 16);
    assert_eq!(head_with_ellipsis("项目描述", 6), "项目...");
}
