use obx::entries::DirRecord;
use obx::entries::NoteEntry;
use obx::entries::NoteFile;
use obx::entries::read_notes;
use obx::render::compute_layout;
use obx::render::note_row_text;
use obx::state::AppState;
use obx::theme::Theme;
use obx::theme::ThemeName;
use obx::theme::Rgb;

fn dir(path: &str, file_name: &str, depth: usize, parent: Option<&str>) -> DirRecord {
    DirRecord {
        path: path.to_string(),
        file_name: file_name.to_string(),
        depth,
        parent: parent.map(|p| p.to_string()),
    }
}

#[test]
fn layout_splits_by_the_documented_percentages() {
    let l = compute_layout(100, 41);
    assert_eq!(l.status.height, 1);
    assert_eq!(l.status.y, 40);
    assert_eq!(l.status.width, 100);
    // 35% left column, the rest preview
    assert_eq!(l.folders.width, 35);
    assert_eq!(l.notes.width, 35);
    assert_eq!(l.preview.width, 65);
    assert_eq!(l.preview.x, 35);
    // 60%/40% of the 40-row body
    assert_eq!(l.folders.height, 24);
    assert_eq!(l.notes.height, 16);
    assert_eq!(l.notes.y, 24);
    assert_eq!(l.preview.height, 40);
    // degenerate frames stay inside bounds
    let tiny = compute_layout(0, 0);
    assert_eq!(tiny.status.height, 0);
    assert_eq!(tiny.folders.width, 0);
}

#[test]
fn folder_rows_show_indent_and_disclosure() {
    let raw = vec![
        dir("/v", "v", 0, None),
        dir("/v/A", "A", 1, Some("/v")),
        dir("/v/A/sub", "sub", 2, Some("/v/A")),
        dir("/v/B", "B", 1, Some("/v")),
    ];
    let mut st = AppState::new("/v".to_string(), "v", Theme::default(), None, &raw).unwrap();
    st.install_notes("/v".to_string(), read_notes(vec![]));
    st.select_folder("/v".to_string());
    // A starts expanded (depth 1), so its child is visible and A shows the
    // expanded marker; sub and B are leaves and get a blank marker
    let rows = st.folder_rows();
    assert_eq!(
        rows,
        vec![
            "\u{25bc} A".to_string(),
            "    sub".to_string(),
            "  B".to_string(),
        ]
    );
    // collapsing A hides sub and shows the collapsed marker
    st.select_folder("/v/A".to_string());
    st.handle_key(obx::state::KeyInput { code: obx::state::KeyCode::Left, press: true });
    let rows = st.folder_rows();
    assert_eq!(rows, vec!["\u{25b6} A".to_string(), "  B".to_string()]);
}

#[test]
fn note_rows_show_placeholder_for_empty_folders() {
    let raw = vec![dir("/v", "v", 0, None)];
    let mut st = AppState::new("/v".to_string(), "v", Theme::default(), None, &raw).unwrap();
    st.install_notes("/v".to_string(), read_notes(vec![]));
    st.select_folder("/v".to_string());
    assert_eq!(st.note_rows(), vec!["(no notes)".to_string()]);
}

#[test]
fn note_row_joins_tags_behind_hash_marks() {
    let note = NoteEntry {
        path: "/v/x.md".to_string(),
        name: "x.md".to_string(),
        modified: None,
        tags: vec!["work".to_string(), "home".to_string()],
    };
    assert_eq!(note_row_text(&note, &None), "x.md  #work #home");
    assert_eq!(
        note_row_text(&note, &Some("2024-01-01 09:30".to_string())),
        "x.md  2024-01-01 09:30  #work #home"
    );
    let bare = NoteEntry {
        path: "/v/y.md".to_string(),
        name: "y.md".to_string(),
        modified: None,
        tags: vec![],
    };
    assert_eq!(note_row_text(&bare, &None), "y.md");
}

#[test]
fn note_row_includes_formatted_modification_time() {
    let files = vec![NoteFile {
        path: "/v/x.md".to_string(),
        name: "x.md".to_string(),
        modified: Some(1700000000),
        content: String::new(),
    }];
    let notes = read_notes(files);
    let formatted = notes[0].formatted_modified().expect("a timestamp was given");
    let row = note_row_text(&notes[0], &Some(formatted.clone()));
    assert_eq!(row, format!("x.md  {}", formatted));
}

#[test]
fn themes_resolve_to_their_palettes() {
    let gruvbox = ThemeName::GruvboxDark.resolve();
    assert_eq!(gruvbox.background, Rgb { r: 40, g: 40, b: 40 });
    assert_eq!(gruvbox.accent, Rgb { r: 215, g: 153, b: 33 });
    let solarized = ThemeName::SolarizedLight.resolve();
    assert_eq!(solarized.background, Rgb { r: 253, g: 246, b: 227 });
    assert_eq!(Theme::default(), ThemeName::ObsidianDark.resolve());
    assert_eq!(ThemeName::default(), ThemeName::ObsidianDark);
}

#[test]
fn default_status_names_the_vault() {
    let msg = obx::state::default_status_message("notes");
    assert_eq!(
        msg,
        "Vault: notes \u{2022} \u{2191}/\u{2193} navigate \u{2022} \u{2190}/\u{2192} fold \u{2022} Enter open \u{2022} Tab switch panel \u{2022} q quit"
    );
}
