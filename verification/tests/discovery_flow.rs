use project_folder_manager::discover::{
    create_project_info, detect_project_type, is_project_container, is_project_dir,
    is_project_dir_from_entries, project_marker_dirs, project_marker_files, project_type_markers,
    sort_dirs_by_priority, DirCandidate, ProjectProbe, TypeProbe,
};
use project_folder_manager::discovery::{
    get_available_drives, is_same_path, Discovery, DiscoveryStep, ListedEntry,
};

fn names(v: &[&str]) -> Vec<String> {
    v.iter().map(|s| s.to_string()).collect()
}

#[test]
fn listings_that_show_a_project() {
    assert!(is_project_dir_from_entries(&names(&["src", "Cargo.toml"])));
    assert!(is_project_dir_from_entries(&names(&[".git"])));
    assert!(is_project_dir_from_entries(&names(&["App.SLN"])));
    assert!(is_project_dir_from_entries(&names(&["lib.cabal"])));
    assert!(!is_project_dir_from_entries(&names(&["notes.txt", "photos"])));
    assert!(!is_project_dir_from_entries(&Vec::new()));
}

#[test]
fn probes_that_show_a_project() {
    let files = project_marker_files();
    let dirs = project_marker_dirs();
    let mut probe = ProjectProbe {
        marker_dirs: vec![false; dirs.len()],
        marker_files: vec![false; files.len()],
        listing: Some(names(&["readme.txt"])),
    };
    assert!(!is_project_dir(&probe));
    probe.marker_files[files.iter().position(|f| *f == "go.mod").unwrap()] = true;
    assert!(is_project_dir(&probe));
    let by_listing = ProjectProbe {
        marker_dirs: vec![false; dirs.len()],
        marker_files: vec![false; files.len()],
        listing: Some(names(&["Tool.csproj"])),
    };
    assert!(is_project_dir(&by_listing));
}

#[test]
fn project_type_by_first_marker_then_listing() {
    let markers = project_type_markers();
    let mut present = vec![false; markers.len()];
    present[markers.iter().position(|m| *m == "Makefile").unwrap()] = true;
    present[markers.iter().position(|m| *m == "package.json").unwrap()] = true;
    let probe = TypeProbe { markers: present, listing: None };
    assert_eq!(detect_project_type(&probe), "Node.js");
    let by_name = TypeProbe {
        markers: vec![false; markers.len()],
        listing: Some(names(&["readme", "Game.sln"])),
    };
    assert_eq!(detect_project_type(&by_name), "VS Solution");
    let haskell = TypeProbe { markers: vec![false; markers.len()], listing: Some(names(&["stack.yaml"])) };
    assert_eq!(detect_project_type(&haskell), "Haskell");
    let none = TypeProbe { markers: vec![false; markers.len()], listing: None };
    assert_eq!(detect_project_type(&none), "Other");
}

#[test]
fn project_info_for_a_found_folder() {
    let p = create_project_info(Some("app".to_string()), "/w/app".to_string(), "Rust".to_string(), "2024-01-02 03:04".to_string());
    assert_eq!(p.name, "app");
    assert_eq!(p.path, "/w/app");
    assert!(p.description.is_empty());
    assert_eq!(p.tags, vec!["Rust"]);
    assert_eq!(p.added_date, "2024-01-02 03:04");
    assert!(p.auto_discovered);
    assert_eq!(p.project_type, "Rust");
    let q = create_project_info(None, "/".to_string(), "Other".to_string(), String::new());
    assert_eq!(q.name, "/");
}

#[test]
fn containers_and_priority() {
    assert!(is_project_container("Projects"));
    assert!(is_project_container("repos"));
    assert!(!is_project_container("Music"));
    let mut dirs = vec![
        DirCandidate { path: "/m".to_string(), name: "Music".to_string() },
        DirCandidate { path: "/c".to_string(), name: "code".to_string() },
        DirCandidate { path: "/p".to_string(), name: "Pictures".to_string() },
        DirCandidate { path: "/w".to_string(), name: "Work".to_string() },
    ];
    sort_dirs_by_priority(&mut dirs);
    let order: Vec<&str> = dirs.iter().map(|d| d.path.as_str()).collect();
    assert_eq!(order, vec!["/c", "/w", "/m", "/p"]);
}

#[test]
fn drives_are_the_mount_points_each_once() {
    let mounts = vec!["/".to_string(), "/home".to_string(), "/".to_string(), "C:\\".to_string()];
    assert_eq!(get_available_drives(&mounts), vec!["/", "/home", "C:\\"]);
    assert!(get_available_drives(&Vec::new()).is_empty());
}

fn entry(path: &str, name: &str, is_dir: bool) -> ListedEntry {
    ListedEntry { path: path.to_string(), name: name.to_string(), is_dir }
}

#[test]
fn discovery_walks_home_roots_and_folders() {
    let mut d = Discovery::new(vec!["C:\\".to_string()], Some("/home/u".to_string()), '/');
    // the home folder is checked first
    match d.next_step() {
        DiscoveryStep::ProbeProject { path } => assert_eq!(path, "/home/u"),
        _ => panic!("expected the home check"),
    }
    d.on_project_probe(false);
    // then the drive, then the home folder as a root
    match d.next_step() {
        DiscoveryStep::ListRoot { path } => assert_eq!(path, "C:\\"),
        _ => panic!("expected the drive"),
    }
    d.on_root_listing(Some(vec![
        entry("C:\\Windows", "Windows", true),
        entry("C:\\misc", "misc", true),
        entry("C:\\code", "code", true),
        entry("C:\\.cache", ".cache", true),
        entry("C:\\file.txt", "file.txt", false),
    ]));
    // containers first
    match d.next_step() {
        DiscoveryStep::ProbeProject { path } => assert_eq!(path, "C:\\code"),
        _ => panic!("expected C:\\code"),
    }
    d.on_project_probe(false);
    match d.next_step() {
        DiscoveryStep::ListDir { path } => assert_eq!(path, "C:\\code"),
        _ => panic!("expected a listing of C:\\code"),
    }
    d.on_dir_listing(Some(vec![entry("C:\\code\\app", "app", true), entry("C:\\code\\.x", ".x", true)]));
    match d.next_step() {
        DiscoveryStep::ListDir { path } => assert_eq!(path, "C:\\code\\app"),
        _ => panic!("expected a listing of the app"),
    }
    d.on_dir_listing(Some(vec![entry("C:\\code\\app\\Cargo.toml", "Cargo.toml", false)]));
    assert_eq!(d.dirs_scanned, 1);
    match d.next_step() {
        DiscoveryStep::Describe { path } => assert_eq!(path, "C:\\code\\app"),
        _ => panic!("expected a description"),
    }
    let markers = project_type_markers();
    let mut present = vec![false; markers.len()];
    present[0] = true;
    let p = d.on_described(Some("app".to_string()), &TypeProbe { markers: present, listing: None }, "now".to_string());
    assert_eq!(p.name, "app");
    assert_eq!(p.project_type, "Rust");
    assert_eq!(d.found.len(), 1);
    // the other top-level folder
    match d.next_step() {
        DiscoveryStep::ProbeProject { path } => assert_eq!(path, "C:\\misc"),
        _ => panic!("expected C:\\misc"),
    }
    d.on_project_probe(true);
    match d.next_step() {
        DiscoveryStep::Describe { path } => assert_eq!(path, "C:\\misc"),
        _ => panic!("expected a description of C:\\misc"),
    }
    d.on_described(None, &TypeProbe { markers: vec![false; markers.len()], listing: None }, "now".to_string());
    assert_eq!(d.found[1].name, "C:\\misc");
    assert_eq!(d.found[1].project_type, "Other");
    match d.next_step() {
        DiscoveryStep::ListRoot { path } => assert_eq!(path, "/home/u"),
        _ => panic!("expected the home root"),
    }
    d.on_root_listing(None);
    assert!(matches!(d.next_step(), DiscoveryStep::Done));
}

#[test]
fn folders_below_the_depth_limit_are_skipped() {
    let mut d = Discovery::new(vec!["R".to_string()], None, '/');
    assert!(matches!(d.next_step(), DiscoveryStep::ListRoot { .. }));
    d.on_root_listing(Some(vec![entry("R/a", "a", true)]));
    assert!(matches!(d.next_step(), DiscoveryStep::ProbeProject { .. }));
    d.on_project_probe(false);
    // depth 2, 3, 4 are listed below an ordinary folder; depth 5 is not
    let mut path = "R/a".to_string();
    for level in 0..3 {
        match d.next_step() {
            DiscoveryStep::ListDir { path: p } => assert_eq!(p, path),
            _ => panic!("expected a listing at level {}", level),
        }
        let child = format!("{}/d", path);
        d.on_dir_listing(Some(vec![entry(&child, "d", true)]));
        path = child;
    }
    assert!(matches!(d.next_step(), DiscoveryStep::Done));
}

#[test]
fn paths_compare_by_components() {
    assert!(is_same_path("/home/u", "/home/u/", '/'));
    assert!(is_same_path("/home//u", "/home/./u", '/'));
    assert!(!is_same_path("/home/u", "home/u", '/'));
    assert!(!is_same_path("/home/u", "/home/v", '/'));
    assert!(!is_same_path("./a", "a", '/'));
    assert!(is_same_path("C:\\Users\\", "C:\\Users", '\\'));
    assert!(!is_same_path("C:\\", "C:", '\\'));
    for (a, b) in [("/home/u", "/home/u/"), ("/x/./y", "/x/y"), ("/a", "a"), ("./a", "a"), ("/a/b", "/a/c")] {
        assert_eq!(
            is_same_path(a, b, '/'),
            std::path::Path::new(a) == std::path::Path::new(b),
            "{a} {b}"
        );
    }
}

#[test]
fn a_home_that_is_a_drive_is_not_scanned_twice() {
    let mut d = Discovery::new(vec!["/home/u/".to_string()], Some("/home/u".to_string()), '/');
    assert!(matches!(d.next_step(), DiscoveryStep::ProbeProject { .. }));
    d.on_project_probe(false);
    match d.next_step() {
        DiscoveryStep::ListRoot { path } => assert_eq!(path, "/home/u/"),
        _ => panic!("expected the drive"),
    }
    d.on_root_listing(Some(Vec::new()));
    assert!(matches!(d.next_step(), DiscoveryStep::Done));
}
