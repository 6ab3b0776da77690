use project_folder_manager::app_state::{parse_tags, App};
use project_folder_manager::category::FileCategory;
use project_folder_manager::models::{AutoScanProgress, PreviewContent, ProjectInfo};
use project_folder_manager::scan::build_scan_result;
use project_folder_manager::scan::RawEntry;

fn project(name: &str, path: &str) -> ProjectInfo {
    ProjectInfo {
        name: name.to_string(),
        path: path.to_string(),
        description: String::new(),
        tags: Vec::new(),
        added_date: String::new(),
        auto_discovered: false,
        project_type: String::new(),
    }
}

fn found(name: &str, path: &str) -> ProjectInfo {
    let mut p = project(name, path);
    p.auto_discovered = true;
    p.project_type = "Rust".to_string();
    p
}

fn three() -> App {
    App::new(vec![project("a", "/a"), project("b", "/b"), project("c", "/c")])
}

#[test]
fn tags_are_trimmed_and_empty_ones_dropped() {
    assert_eq!(parse_tags(" rust, gui ,, tool "), vec!["rust", "gui", "tool"]);
    assert!(parse_tags("").is_empty());
    assert!(parse_tags(" , ").is_empty());
}

#[test]
fn selecting_a_project_starts_a_scan() {
    let mut app = three();
    assert_eq!(app.select_project(1), Some("/b".to_string()));
    assert_eq!(app.selected_project_index, Some(1));
    assert!(app.is_scanning);
    // selecting it again does nothing
    assert_eq!(app.select_project(1), None);
    // a project that does not exist is selected but not scanned
    let mut other = three();
    assert_eq!(other.select_project(7), None);
    assert!(!other.is_scanning);
}

#[test]
fn removing_keeps_the_selection_on_the_same_project() {
    let mut app = three();
    app.select_project(2);
    assert!(app.remove_project(0));
    assert_eq!(app.selected_project_index, Some(1));
    assert_eq!(app.projects[1].name, "c");
    assert!(app.remove_project(1));
    assert_eq!(app.selected_project_index, None);
    assert!(matches!(app.preview_content, PreviewContent::Empty));
    assert!(!app.remove_project(5));
    assert_eq!(app.projects.len(), 1);
}

#[test]
fn adding_a_project_needs_a_path_and_a_name() {
    let mut app = three();
    app.new_project_path = "  ".to_string();
    app.new_project_name = "x".to_string();
    assert!(!app.add_project("now".to_string()));
    assert_eq!(app.status_message, "路径和名称不能为空");
    app.new_project_path = " /x ".to_string();
    app.new_project_name = " X ".to_string();
    app.new_project_desc = " desc ".to_string();
    app.new_project_tags = "a, b".to_string();
    assert!(app.add_project("2024-05-06 07:08".to_string()));
    let p = &app.projects[3];
    assert_eq!(p.path, "/x");
    assert_eq!(p.name, "X");
    assert_eq!(p.description, "desc");
    assert_eq!(p.tags, vec!["a", "b"]);
    assert!(!p.auto_discovered);
    assert_eq!(app.after_project_added(), Some("/x".to_string()));
    assert_eq!(app.selected_project_index, Some(3));
    assert_eq!(app.status_message, "项目已添加");
}

#[test]
fn editing_a_project() {
    let mut app = three();
    app.start_editing_project(0);
    assert_eq!(app.editing_project, Some(0));
    assert!(app.save_edited_project(0, " A2 ".to_string(), "d".to_string(), "t1,t2".to_string(), "/a2".to_string()));
    assert_eq!(app.projects[0].name, "A2");
    assert_eq!(app.projects[0].path, "/a2");
    assert_eq!(app.projects[0].tags, vec!["t1", "t2"]);
}

#[test]
fn scan_results_expand_the_first_level() {
    let mut app = three();
    app.select_project(0);
    let entries = vec![RawEntry {
        is_dir: true,
        len: 0,
        last_modified: None,
        components: vec!["src".to_string()],
    }];
    let r = build_scan_result("a".to_string(), "/a".to_string(), None, entries, '/');
    app.on_scan_finished(Ok(r));
    assert!(!app.is_scanning);
    assert!(app.is_expanded("/a/src"));
    assert_eq!(app.status_message, "扫描完成");
    app.toggle_expanded("/a/src");
    assert!(!app.is_expanded("/a/src"));
    app.toggle_expanded("/a/src");
    assert!(app.is_expanded("/a/src"));
    app.on_scan_finished(Err("boom".to_string()));
    assert_eq!(app.status_message, "扫描失败: boom");
    app.on_scan_disconnected();
    assert_eq!(app.status_message, "扫描失败，请检查目录是否可访问");
}

#[test]
fn searching_needs_a_query_and_a_project() {
    let mut app = three();
    app.search_query = "main".to_string();
    assert_eq!(app.perform_search(), None);
    app.select_project(2);
    app.search_query = "main".to_string();
    assert_eq!(app.perform_search(), Some(("/c".to_string(), "main".to_string())));
    assert!(app.is_searching);
    app.on_search_results(vec!["/c/main.rs".to_string()]);
    assert!(!app.is_searching);
    assert_eq!(app.search_results, vec!["/c/main.rs"]);
    app.search_query.clear();
    assert_eq!(app.perform_search(), None);
    assert!(app.search_results.is_empty());
}

#[test]
fn preview_requests_a_load_once() {
    let mut app = three();
    assert!(app.preview_file("/a/x.rs"));
    assert_eq!(app.preview_path, Some("/a/x.rs".to_string()));
    app.show_preview(PreviewContent::Text("hi".to_string()));
    assert!(matches!(&app.preview_content, PreviewContent::Text(t) if t == "hi"));
}

#[test]
fn auto_scan_keeps_each_path_once() {
    let mut app = three();
    assert!(app.start_auto_scan());
    assert!(!app.start_auto_scan());
    assert!(!app.on_auto_scan_event(AutoScanProgress::ScanningDrive("C:\\".to_string())));
    assert_eq!(app.auto_scanning_drive, "C:\\");
    app.on_auto_scan_event(AutoScanProgress::FoundProject(found("x", "/x")));
    app.on_auto_scan_event(AutoScanProgress::FoundProject(found("x again", "/x")));
    app.on_auto_scan_event(AutoScanProgress::FoundProject(found("kept", "/a")));
    app.on_auto_scan_event(AutoScanProgress::FoundProject(found("y", "/y")));
    assert_eq!(app.auto_discovered.len(), 2);
    assert!(app.on_auto_scan_event(AutoScanProgress::Finished));
    assert!(!app.is_auto_scanning);
    assert_eq!(app.status_message, "磁盘扫描完成，发现 2 个候选项目");
    assert!(app.add_discovered_project(1));
    assert_eq!(app.projects.len(), 4);
    assert_eq!(app.projects[3].path, "/y");
    assert_eq!(app.after_discovered_added(), Some("/y".to_string()));
    assert_eq!(app.add_all_discovered(), 1);
    assert_eq!(app.projects.len(), 5);
    assert!(app.auto_discovered.is_empty());
    assert_eq!(app.after_all_discovered_added(1), Some("/x".to_string()));
    assert_eq!(app.status_message, "已添加 1 个项目");
    assert_eq!(app.after_all_discovered_added(0), None);
    assert_eq!(app.status_message, "已添加 0 个项目");
    assert!(!app.add_discovered_project(0));
}

#[test]
fn a_file_category_is_copyable() {
    let c = FileCategory::Code;
    let d = c;
    assert_eq!(c, d);
}

#[test]
fn a_search_hit_expands_its_folders() {
    let mut app = three();
    app.expand_ancestors("/a/src/ui/view.rs", '/');
    for dir in ["/", "/a", "/a/src", "/a/src/ui"] {
        assert!(app.is_expanded(dir), "{dir}");
    }
    assert!(!app.is_expanded("/a/src/ui/view.rs"));
    assert_eq!(app.expanded_dirs.len(), 4);
    // a second call adds nothing
    app.expand_ancestors("/a/src/main.rs", '/');
    assert_eq!(app.expanded_dirs.len(), 4);

    let mut win = three();
    win.expand_ancestors("C:\\p\\src\\lib.rs", '\\');
    for dir in ["C:\\", "C:\\p", "C:\\p\\src"] {
        assert!(win.is_expanded(dir), "{dir}");
    }
    assert!(!win.is_expanded("C:"));
    assert_eq!(win.expanded_dirs.len(), 3);
}

#[test]
fn clearing_and_emptying_the_search() {
    let mut app = three();
    app.search_query = "main".to_string();
    app.on_query_edited();
    assert!(app.pending_search);
    app.search_results = vec!["/a/main.rs".to_string()];
    app.drop_results_for_empty_query();
    assert_eq!(app.search_results.len(), 1);
    app.search_query.clear();
    app.drop_results_for_empty_query();
    assert!(app.search_results.is_empty());
    assert!(!app.pending_search);

    app.search_query = "x".to_string();
    app.search_results = vec!["/a/x".to_string()];
    app.clear_search();
    assert!(app.search_query.is_empty());
    assert!(app.search_results.is_empty());
}
