use obx::entries::DirRecord;
use obx::entries::NoteFile;
use obx::entries::build_folder_entries;
use obx::entries::check_walk;
use obx::entries::initialize_expanded_folders;
use obx::entries::is_markdown;
use obx::entries::read_notes;
use obx::entries::should_visit_dir;
use obx::entries::vec_contains_str;

fn dir(path: &str, file_name: &str, depth: usize, parent: Option<&str>) -> DirRecord {
    DirRecord {
        path: path.to_string(),
        file_name: file_name.to_string(),
        depth,
        parent: parent.map(|p| p.to_string()),
    }
}

fn note_file(path: &str, name: &str, content: &str) -> NoteFile {
    NoteFile {
        path: path.to_string(),
        name: name.to_string(),
        modified: None,
        content: content.to_string(),
    }
}

#[test]
fn is_markdown_checks_extension_case_insensitively() {
    assert!(is_markdown("note.md"));
    assert!(is_markdown("note.MD"));
    assert!(is_markdown("note.Md"));
    assert!(is_markdown("a.b.md"));
    assert!(!is_markdown("note.txt"));
    assert!(!is_markdown("note"));
    assert!(!is_markdown(".md"));
    assert!(!is_markdown("note."));
    assert!(!is_markdown("md"));
    assert!(!is_markdown("note.mdx"));
}

#[test]
fn should_visit_dir_skips_hidden_and_dependency_dirs() {
    assert!(should_visit_dir(0, true, ".hidden-root"));
    assert!(!should_visit_dir(1, true, ".git"));
    assert!(!should_visit_dir(2, true, "node_modules"));
    assert!(should_visit_dir(1, true, "notes"));
    assert!(should_visit_dir(1, false, ".hidden-file"));
}

#[test]
fn folder_tree_has_one_root_and_known_parents() {
    let raw = vec![
        dir("/v", "v", 0, None),
        dir("/v/A", "A", 1, Some("/v")),
        dir("/v/A/sub", "sub", 2, Some("/v/A")),
        dir("/v/B", "B", 1, Some("/v")),
    ];
    assert!(check_walk(&raw, "/v"));
    let folders = build_folder_entries("vault", &raw);
    assert_eq!(folders.len(), 4);
    // exactly one entry at depth 0, without a parent: the root, labelled
    // with the vault's name
    assert_eq!(folders[0].depth, 0);
    assert!(folders[0].parent.is_none());
    assert_eq!(folders[0].name, "vault");
    for f in folders.iter().skip(1) {
        assert!(f.depth >= 1);
        let p = f.parent.as_ref().expect("non-root entries keep a parent");
        assert!(folders.iter().any(|g| &g.path == p));
    }
}

#[test]
fn malformed_walks_are_rejected() {
    // wrong root depth
    assert!(!check_walk(&vec![dir("/v", "v", 1, None)], "/v"));
    // parent not listed before the child
    let raw = vec![dir("/v", "v", 0, None), dir("/v/A/sub", "sub", 2, Some("/v/A"))];
    assert!(!check_walk(&raw, "/v"));
    // duplicate path
    let raw = vec![dir("/v", "v", 0, None), dir("/v", "v", 1, Some("/v"))];
    assert!(!check_walk(&raw, "/v"));
    // empty walk
    assert!(!check_walk(&Vec::new(), "/v"));
}

#[test]
fn notes_sort_case_insensitively() {
    let files = vec![
        note_file("/v/B.md", "B.md", ""),
        note_file("/v/a.md", "a.md", ""),
        note_file("/v/C.md", "C.md", ""),
    ];
    let notes = read_notes(files);
    let names: Vec<&str> = notes.iter().map(|n| n.name.as_str()).collect();
    // byte order would put "B.md" and "C.md" before "a.md"
    assert_eq!(names, vec!["a.md", "B.md", "C.md"]);
}

#[test]
fn read_notes_extracts_tags_and_keeps_metadata() {
    let files = vec![note_file("/v/x.md", "x.md", "---\ntags: [work, home]\n---\ntext\n")];
    let notes = read_notes(files);
    assert_eq!(notes.len(), 1);
    assert_eq!(notes[0].path, "/v/x.md");
    assert_eq!(notes[0].name, "x.md");
    assert_eq!(notes[0].modified, None);
    assert_eq!(notes[0].tags, vec!["work".to_string(), "home".to_string()]);
}

#[test]
fn formatted_modified_tracks_presence() {
    let with = read_notes(vec![NoteFile {
        path: "/v/x.md".to_string(),
        name: "x.md".to_string(),
        modified: Some(0),
        content: String::new(),
    }]);
    assert!(with[0].formatted_modified().is_some());
    let without = read_notes(vec![note_file("/v/y.md", "y.md", "")]);
    assert!(without[0].formatted_modified().is_none());
}

#[test]
fn initial_expansion_holds_root_and_shallow_folders() {
    let raw = vec![
        dir("/v", "v", 0, None),
        dir("/v/A", "A", 1, Some("/v")),
        dir("/v/A/sub", "sub", 2, Some("/v/A")),
    ];
    let folders = build_folder_entries("v", &raw);
    let expanded = initialize_expanded_folders(&folders, "/v");
    assert!(vec_contains_str(&expanded, "/v"));
    assert!(vec_contains_str(&expanded, "/v/A"));
    assert!(!vec_contains_str(&expanded, "/v/A/sub"));
    // no duplicates: the root qualifies twice (as vault path and at depth 0)
    assert_eq!(expanded.iter().filter(|p| p.as_str() == "/v").count(), 1);
}
