use project_folder_manager::category::FileCategory;
use project_folder_manager::scan::{
    build_scan_result, extension_of, scan_directory, search_files, skip_hidden_and_artifact_dirs,
    RawEntry, ScanRequest, SearchCandidate,
};
use project_folder_manager::tree::{compute_recursive_sizes, insert_recursive, FileEntry};

fn raw(is_dir: bool, len: u64, comps: &[&str]) -> RawEntry {
    RawEntry {
        is_dir,
        len,
        last_modified: Some(1_700_000_000),
        components: comps.iter().map(|s| s.to_string()).collect(),
    }
}

fn sample_entries() -> Vec<RawEntry> {
    vec![
        raw(true, 4096, &["src"]),
        raw(false, 100, &["src", "main.rs"]),
        raw(false, 50, &["logo.PNG"]),
        raw(false, 20, &["README.md"]),
        raw(false, 30, &["docs", "guide.md"]),
    ]
}

#[test]
fn scan_totals_and_tree() {
    let r = build_scan_result("r".to_string(), "/r".to_string(), None, sample_entries(), '/');
    assert_eq!(r.total_size, 200);
    assert_eq!(r.file_count, 4);
    // "src" and the "docs" folder made on the way to guide.md
    assert_eq!(r.dir_count, 2);
    assert_eq!(r.root.total_size(), 200);
    assert_eq!(r.root.file_count(), 4);
    assert_eq!(r.root.dir_count(), 3);
    assert_eq!(r.root.size_recursive, 200);
    let names: Vec<&str> = r.root.children.iter().map(|c| c.name.as_str()).collect();
    assert_eq!(names, vec!["src", "logo.PNG", "README.md", "docs"]);
    let src = &r.root.children[0];
    assert!(src.is_dir);
    assert_eq!(src.size, 0);
    assert_eq!(src.size_recursive, 100);
    assert_eq!(src.children[0].category, FileCategory::Code);
    assert_eq!(r.root.children[1].category, FileCategory::Image);
    let docs = &r.root.children[3];
    assert!(docs.is_dir);
    assert_eq!(docs.path, "/r/docs");
    assert_eq!(docs.size_recursive, 30);
    assert_eq!(docs.children[0].path, "/r/docs/guide.md");
    assert_eq!(src.children[0].path, "/r/src/main.rs");
    assert_eq!(src.children[0].name, "main.rs");
}

#[test]
fn paths_are_joined_with_the_separator() {
    let entries = vec![raw(false, 1, &["a", "b.txt"])];
    let r = build_scan_result("C:\\".to_string(), "C:\\".to_string(), None, entries, '\\');
    assert_eq!(r.root.children[0].path, "C:\\a");
    assert_eq!(r.root.children[0].children[0].path, "C:\\a\\b.txt");
}

#[test]
fn category_stats_largest_first_and_sum_to_total() {
    let r = build_scan_result("r".to_string(), "/r".to_string(), None, sample_entries(), '/');
    let cats: Vec<(FileCategory, u64, usize)> =
        r.category_stats.iter().map(|s| (s.category, s.size, s.count)).collect();
    assert_eq!(
        cats,
        vec![(FileCategory::Code, 100, 1), (FileCategory::Image, 50, 1), (FileCategory::Document, 50, 2)]
    );
    let sum: u64 = r.category_stats.iter().map(|s| s.size).sum();
    assert_eq!(sum, r.total_size);
    let count: usize = r.category_stats.iter().map(|s| s.count).sum();
    assert_eq!(count, r.file_count);
}

#[test]
fn equal_sizes_keep_the_category_order() {
    let entries = vec![
        raw(false, 10, &["a.zip"]),
        raw(false, 10, &["b.rs"]),
    ];
    let r = build_scan_result("r".to_string(), "/r".to_string(), None, entries, '/');
    let cats: Vec<FileCategory> = r.category_stats.iter().map(|s| s.category).collect();
    assert_eq!(cats, vec![FileCategory::Code, FileCategory::Archive]);
}

#[test]
fn empty_scan() {
    let r = build_scan_result("r".to_string(), "/r".to_string(), Some(5), Vec::new(), '/');
    assert_eq!(r.total_size, 0);
    assert_eq!(r.file_count, 0);
    assert_eq!(r.dir_count, 0);
    assert!(r.category_stats.is_empty());
    assert!(r.root.children.is_empty());
    assert_eq!(r.root.last_modified, Some(5));
}

fn request(exists: bool, is_dir: bool) -> ScanRequest {
    ScanRequest {
        exists,
        is_dir,
        path_debug: "\"/nope\"".to_string(),
        file_name: Some("nope".to_string()),
        path: "/nope".to_string(),
        modified: None,
        entries: Vec::new(),
        separator: '/',
    }
}

#[test]
fn scan_directory_refuses_missing_path() {
    match scan_directory(request(false, false)) {
        Err(e) => assert_eq!(e, "路径不存在: \"/nope\""),
        Ok(_) => panic!("expected an error"),
    }
}

#[test]
fn scan_directory_refuses_a_file() {
    match scan_directory(request(true, false)) {
        Err(e) => assert_eq!(e, "路径不是目录: \"/nope\""),
        Ok(_) => panic!("expected an error"),
    }
}

#[test]
fn scan_directory_names_the_root() {
    let mut req = request(true, true);
    req.file_name = None;
    match scan_directory(req) {
        Ok(r) => assert_eq!(r.root.name, "root"),
        Err(_) => panic!("expected a result"),
    }
    match scan_directory(request(true, true)) {
        Ok(r) => assert_eq!(r.root.name, "nope"),
        Err(_) => panic!("expected a result"),
    }
}

#[test]
fn extensions_follow_path_rules() {
    assert_eq!(extension_of("main.rs"), "rs");
    assert_eq!(extension_of("archive.tar.GZ"), "GZ");
    assert_eq!(extension_of(".gitignore"), "");
    assert_eq!(extension_of("Makefile"), "");
    assert_eq!(extension_of("trailing."), "");
    let e = FileEntry {
        name: "Photo.JPG".to_string(),
        path: "/r/Photo.JPG".to_string(),
        is_dir: false,
        size: 1,
        size_recursive: 0,
        category: FileCategory::Image,
        children: Vec::new(),
        last_modified: None,
    };
    assert_eq!(e.extension(), "jpg");
}

#[test]
fn walk_filter_skips_hidden_and_build_output() {
    assert!(skip_hidden_and_artifact_dirs("src"));
    assert!(!skip_hidden_and_artifact_dirs(".git"));
    assert!(!skip_hidden_and_artifact_dirs(".env"));
    assert!(!skip_hidden_and_artifact_dirs("node_modules"));
    assert!(!skip_hidden_and_artifact_dirs("target"));
    assert!(!skip_hidden_and_artifact_dirs("__pycache__"));
}

#[test]
fn search_matches_names_ignoring_case() {
    let cands = vec![
        SearchCandidate { name: "Main.rs".to_string(), path: "/r/src/Main.rs".to_string() },
        SearchCandidate { name: "lib.rs".to_string(), path: "/r/src/lib.rs".to_string() },
        SearchCandidate { name: "domain.md".to_string(), path: "/r/domain.md".to_string() },
    ];
    assert_eq!(search_files(&cands, "MAIN"), vec!["/r/src/Main.rs", "/r/domain.md"]);
    assert!(search_files(&cands, "zzz").is_empty());
    assert_eq!(search_files(&cands, "").len(), 3);
}

#[test]
fn recursive_sizes_fill_directories() {
    let leaf = |n: &str, s: u64| FileEntry {
        name: n.to_string(),
        path: n.to_string(),
        is_dir: false,
        size: s,
        size_recursive: 0,
        category: FileCategory::Other,
        children: Vec::new(),
        last_modified: None,
    };
    let mut root = FileEntry {
        name: "r".to_string(),
        path: "r".to_string(),
        is_dir: true,
        size: 0,
        size_recursive: 0,
        category: FileCategory::Other,
        children: vec![
            leaf("a", 3),
            FileEntry {
                name: "d".to_string(),
                path: "d".to_string(),
                is_dir: true,
                size: 0,
                size_recursive: 0,
                category: FileCategory::Other,
                children: vec![leaf("b", 4), leaf("c", 5)],
                last_modified: None,
            },
        ],
        last_modified: None,
    };
    assert_eq!(compute_recursive_sizes(&mut root), 12);
    assert_eq!(root.size_recursive, 12);
    assert_eq!(root.children[1].size_recursive, 9);
    assert_eq!(root.children[0].size_recursive, 0);
}

#[test]
fn insertion_adds_the_entry_and_missing_folders() {
    let mut root = FileEntry {
        name: "r".to_string(),
        path: "/r".to_string(),
        is_dir: true,
        size: 0,
        size_recursive: 0,
        category: FileCategory::Other,
        children: Vec::new(),
        last_modified: None,
    };
    let leaf = |name: &str, size: u64| FileEntry {
        name: name.to_string(),
        path: format!("/r/a/b/{}", name),
        is_dir: false,
        size,
        size_recursive: 0,
        category: FileCategory::Other,
        children: Vec::new(),
        last_modified: None,
    };
    let comps = vec!["a".to_string(), "b".to_string(), "x.txt".to_string()];
    let paths = vec!["/r/a".to_string(), "/r/a/b".to_string(), "/r/a/b/x.txt".to_string()];
    insert_recursive(&mut root, &comps, &paths, 0, leaf("x.txt", 7));
    let comps2 = vec!["a".to_string(), "b".to_string(), "y.txt".to_string()];
    insert_recursive(&mut root, &comps2, &paths, 0, leaf("y.txt", 5));
    assert_eq!(root.total_size(), 12);
    assert_eq!(root.file_count(), 2);
    assert_eq!(root.dir_count(), 3);
    assert_eq!(root.children.len(), 1);
    assert_eq!(root.children[0].path, "/r/a");
    assert_eq!(root.children[0].children[0].path, "/r/a/b");
    assert_eq!(root.children[0].children[0].children.len(), 2);
}

fn category_share(n: &FileEntry, c: FileCategory) -> (u64, usize) {
    if !n.is_dir {
        return if n.category == c { (n.size, 1) } else { (0, 0) };
    }
    let mut total = (0, 0);
    for child in &n.children {
        let (b, f) = category_share(child, c);
        total.0 += b;
        total.1 += f;
    }
    total
}

#[test]
fn category_stats_are_the_tree_shares() {
    let r = build_scan_result("r".to_string(), "/r".to_string(), None, sample_entries(), '/');
    assert!(!r.category_stats.is_empty());
    for s in &r.category_stats {
        assert!(s.count > 0);
        assert_eq!(category_share(&r.root, s.category), (s.size, s.count));
    }
}

fn dir_names_distinct(n: &FileEntry) -> bool {
    let dirs: Vec<&str> = n.children.iter().filter(|c| c.is_dir).map(|c| c.name.as_str()).collect();
    let mut sorted = dirs.clone();
    sorted.sort();
    sorted.dedup();
    sorted.len() == dirs.len() && n.children.iter().all(dir_names_distinct)
}

#[test]
fn walk_order_gives_distinct_folder_names() {
    let entries = vec![
        raw(true, 0, &["src"]),
        raw(true, 0, &["src", "ui"]),
        raw(false, 5, &["src", "ui", "a.rs"]),
        raw(false, 6, &["src", "b.rs"]),
        raw(true, 0, &["docs"]),
        raw(false, 7, &["docs", "ui"]),
        raw(true, 0, &["ui"]),
    ];
    let r = build_scan_result("r".to_string(), "/r".to_string(), None, entries, '/');
    assert!(dir_names_distinct(&r.root));
    assert_eq!(r.root.children.len(), 3);
    assert_eq!(r.dir_count, 4);
}
