use obx::entries::DirRecord;
use obx::entries::NoteFile;
use obx::entries::read_notes;
use obx::state::AppAction;
use obx::state::AppState;
use obx::state::Focus;
use obx::state::KeyCode;
use obx::state::KeyInput;
use obx::state::KeyStep;
use obx::theme::Theme;

fn dir(path: &str, file_name: &str, depth: usize, parent: Option<&str>) -> DirRecord {
    DirRecord {
        path: path.to_string(),
        file_name: file_name.to_string(),
        depth,
        parent: parent.map(|p| p.to_string()),
    }
}

fn note_file(path: &str, name: &str, content: &str) -> NoteFile {
    NoteFile {
        path: path.to_string(),
        name: name.to_string(),
        modified: None,
        content: content.to_string(),
    }
}

fn press(code: KeyCode) -> KeyInput {
    KeyInput { code, press: true }
}

/// A vault with folders A (holding x.md tagged #work) and B (empty).
fn sample_session() -> AppState {
    let raw = vec![
        dir("/v", "v", 0, None),
        dir("/v/A", "A", 1, Some("/v")),
        dir("/v/B", "B", 1, Some("/v")),
    ];
    let mut st = AppState::new("/v".to_string(), "v", Theme::default(), None, &raw)
        .expect("well-formed walk");
    // the session loop loads the selected folder's notes at startup
    st.install_notes("/v".to_string(), read_notes(vec![]));
    st.select_folder("/v".to_string());
    st
}

fn load_folder_a(st: &mut AppState) {
    let files = vec![note_file("/v/A/x.md", "x.md", "---\ntags: work\n---\nhello\n")];
    st.install_notes("/v/A".to_string(), read_notes(files));
}

#[test]
fn initial_state_selects_and_expands_root() {
    let st = sample_session();
    assert_eq!(st.selected_folder_path(), "/v");
    assert!(st.is_folder_expanded("/v"));
    assert_eq!(st.focus(), Focus::Folders);
    assert!(st.selected_note_index().is_none());
    // the first visible folder is A, at depth 1; the root itself is not listed
    let vis = st.visible_folder_indices();
    assert_eq!(vis.len(), 2);
    assert_eq!(st.folders[vis[0]].name, "A");
    assert_eq!(st.folders[vis[0]].depth, 1);
    assert_eq!(st.folders[vis[1]].name, "B");
}

#[test]
fn down_then_enter_focuses_notes_on_first_note() {
    let mut st = sample_session();
    // moving down asks for A's notes first, then lands on A
    match st.handle_key(press(KeyCode::Down)) {
        KeyStep::NeedNotes(folder) => assert_eq!(folder, "/v/A"),
        _ => panic!("expected a request for A's notes"),
    }
    assert_eq!(st.selected_folder_path(), "/v", "a request leaves the model unchanged");
    load_folder_a(&mut st);
    assert!(matches!(
        st.handle_key(press(KeyCode::Down)),
        KeyStep::Done(AppAction::Continue)
    ));
    assert_eq!(st.selected_folder_path(), "/v/A");
    assert_eq!(st.selected_note_index(), Some(0));
    // enter on the folder pane expands A and moves focus to the notes
    assert!(matches!(
        st.handle_key(press(KeyCode::Enter)),
        KeyStep::Done(AppAction::Continue)
    ));
    assert_eq!(st.focus(), Focus::Notes);
    assert!(st.is_folder_expanded("/v/A"));
    // the selected note is x.md and its tag renders behind a hash mark
    let rows = st.note_rows();
    assert_eq!(rows, vec!["x.md  #work".to_string()]);
}

#[test]
fn quit_key_ends_the_session_from_any_focus() {
    let mut st = sample_session();
    assert_eq!(st.focus(), Focus::Folders);
    assert!(matches!(
        st.handle_key(press(KeyCode::Char('q'))),
        KeyStep::Done(AppAction::Quit)
    ));
    st.handle_key(press(KeyCode::Tab));
    assert_eq!(st.focus(), Focus::Notes);
    assert!(matches!(
        st.handle_key(press(KeyCode::Char('q'))),
        KeyStep::Done(AppAction::Quit)
    ));
    st.handle_key(press(KeyCode::Tab));
    assert_eq!(st.focus(), Focus::Viewer);
    assert!(matches!(
        st.handle_key(press(KeyCode::Char('q'))),
        KeyStep::Done(AppAction::Quit)
    ));
    // quitting changes nothing in the model
    assert_eq!(st.selected_folder_path(), "/v");
    assert_eq!(st.focus(), Focus::Viewer);
}

#[test]
fn releases_are_ignored() {
    let mut st = sample_session();
    let step = st.handle_key(KeyInput { code: KeyCode::Char('q'), press: false });
    assert!(matches!(step, KeyStep::Done(AppAction::Continue)));
    assert_eq!(st.focus(), Focus::Folders);
}

#[test]
fn selection_clamps_at_both_ends() {
    let mut st = sample_session();
    load_folder_a(&mut st);
    st.handle_key(press(KeyCode::Down));
    assert_eq!(st.selected_folder_path(), "/v/A");
    // moving up from the first visible folder stays there
    st.handle_key(press(KeyCode::Up));
    assert_eq!(st.selected_folder_path(), "/v/A");
    // moving down twice clamps at the last visible folder
    match st.handle_key(press(KeyCode::Down)) {
        KeyStep::NeedNotes(folder) => {
            assert_eq!(folder, "/v/B");
            st.install_notes("/v/B".to_string(), read_notes(vec![]));
        },
        _ => panic!("expected a request for B's notes"),
    }
    st.handle_key(press(KeyCode::Down));
    assert_eq!(st.selected_folder_path(), "/v/B");
    st.handle_key(press(KeyCode::Down));
    assert_eq!(st.selected_folder_path(), "/v/B");
}

#[test]
fn note_selection_clamps_and_clears() {
    let mut st = sample_session();
    load_folder_a(&mut st);
    st.handle_key(press(KeyCode::Down));
    st.handle_key(press(KeyCode::Enter));
    assert_eq!(st.focus(), Focus::Notes);
    // one note: moving in both directions stays at index 0
    st.handle_key(press(KeyCode::Down));
    assert_eq!(st.selected_note_index(), Some(0));
    st.handle_key(press(KeyCode::Up));
    assert_eq!(st.selected_note_index(), Some(0));
}

#[test]
fn collapse_moves_to_parent_only_when_already_collapsed() {
    let mut st = sample_session();
    load_folder_a(&mut st);
    st.handle_key(press(KeyCode::Down));
    assert_eq!(st.selected_folder_path(), "/v/A");
    // expand A, then left collapses it without moving
    st.handle_key(press(KeyCode::Right));
    assert!(st.is_folder_expanded("/v/A"));
    st.handle_key(press(KeyCode::Left));
    assert!(!st.is_folder_expanded("/v/A"));
    assert_eq!(st.selected_folder_path(), "/v/A");
    // left again: A is already collapsed, selection moves to its parent
    st.handle_key(press(KeyCode::Left));
    assert_eq!(st.selected_folder_path(), "/v");
}

#[test]
fn collapsing_the_collapsed_root_is_a_noop() {
    let mut st = sample_session();
    // the root starts expanded; the first left collapses it
    st.handle_key(press(KeyCode::Left));
    assert!(!st.is_folder_expanded("/v"));
    assert_eq!(st.selected_folder_path(), "/v");
    // already collapsed and without a parent: nothing changes
    st.handle_key(press(KeyCode::Left));
    assert_eq!(st.selected_folder_path(), "/v");
    assert!(!st.is_folder_expanded("/v"));
}

#[test]
fn loader_is_observed_once_per_cache_lifetime() {
    let mut st = sample_session();
    load_folder_a(&mut st);
    st.select_folder("/v/A".to_string());
    let before: Vec<String> =
        st.notes_for_selected_folder().iter().map(|n| n.name.clone()).collect();
    // a second install without an invalidation changes nothing
    let other = read_notes(vec![note_file("/v/A/other.md", "other.md", "")]);
    st.install_notes("/v/A".to_string(), other);
    let after: Vec<String> =
        st.notes_for_selected_folder().iter().map(|n| n.name.clone()).collect();
    assert_eq!(before, after);
    assert_eq!(after, vec!["x.md".to_string()]);
}

#[test]
fn external_edit_reselects_by_path_not_index() {
    let mut st = sample_session();
    let files = vec![
        note_file("/v/A/x.md", "x.md", ""),
        note_file("/v/A/y.md", "y.md", ""),
    ];
    st.install_notes("/v/A".to_string(), read_notes(files));
    st.select_folder("/v/A".to_string());
    // select y.md, the second note
    st.handle_key(press(KeyCode::Tab));
    st.handle_key(press(KeyCode::Down));
    assert_eq!(st.selected_note_index(), Some(1));
    // after the edit the folder is reloaded and now holds one more note,
    // so y.md's index has changed
    st.invalidate_selected_folder();
    let reloaded = vec![
        note_file("/v/A/a.md", "a.md", ""),
        note_file("/v/A/x.md", "x.md", ""),
        note_file("/v/A/y.md", "y.md", ""),
    ];
    st.install_notes("/v/A".to_string(), read_notes(reloaded));
    st.reselect_note("/v/A/y.md");
    assert_eq!(st.selected_note_index(), Some(2), "selected by path, not by stale index");
}

#[test]
fn edited_note_gone_falls_back_to_first() {
    let mut st = sample_session();
    load_folder_a(&mut st);
    st.select_folder("/v/A".to_string());
    st.invalidate_selected_folder();
    st.install_notes("/v/A".to_string(), read_notes(vec![note_file("/v/A/z.md", "z.md", "")]));
    st.reselect_note("/v/A/x.md");
    assert_eq!(st.selected_note_index(), Some(0));
}

#[test]
fn open_requests_editor_then_uses_cached_command() {
    let mut st = sample_session();
    load_folder_a(&mut st);
    st.handle_key(press(KeyCode::Down));
    // no editor resolved yet: the step asks for one
    assert!(matches!(st.handle_key(press(KeyCode::Char('o'))), KeyStep::NeedEditor));
    st.set_editor_command("vi".to_string());
    match st.handle_key(press(KeyCode::Char('o'))) {
        KeyStep::Done(AppAction::Open { editor, note }) => {
            assert_eq!(editor, "vi");
            assert_eq!(note, "/v/A/x.md");
        },
        _ => panic!("expected an open action"),
    }
}

#[test]
fn open_without_selection_sets_advisory_status() {
    let mut st = sample_session();
    // the root folder has no notes
    let step = st.handle_key(press(KeyCode::Char('e')));
    assert!(matches!(step, KeyStep::Done(AppAction::Continue)));
    assert_eq!(st.status_text(), "Select a note to open");
}

#[test]
fn unimplemented_actions_only_report() {
    let mut st = sample_session();
    st.handle_key(press(KeyCode::Char('n')));
    assert_eq!(st.status_text(), "Action not implemented yet");
    st.handle_key(press(KeyCode::Char('/')));
    assert_eq!(st.status_text(), "Search is not implemented yet");
    // escape restores the default status and folder focus
    st.handle_key(press(KeyCode::Tab));
    st.handle_key(press(KeyCode::Esc));
    assert_eq!(st.focus(), Focus::Folders);
    assert!(st.status_text().starts_with("Vault: v"));
}

#[test]
fn focus_cycles_forward_and_backward() {
    let mut st = sample_session();
    st.handle_key(press(KeyCode::Tab));
    assert_eq!(st.focus(), Focus::Notes);
    st.handle_key(press(KeyCode::Tab));
    assert_eq!(st.focus(), Focus::Viewer);
    st.handle_key(press(KeyCode::Tab));
    assert_eq!(st.focus(), Focus::Folders);
    st.handle_key(press(KeyCode::BackTab));
    assert_eq!(st.focus(), Focus::Viewer);
    assert_eq!(Focus::Folders.next(), Focus::Notes);
    assert_eq!(Focus::Folders.prev(), Focus::Viewer);
}

#[test]
fn preview_refresh_follows_selection() {
    let mut st = sample_session();
    load_folder_a(&mut st);
    st.handle_key(press(KeyCode::Down));
    assert!(st.preview_stale());
    let path = st.selected_note_path().expect("a note is selected");
    assert_eq!(path, "/v/A/x.md");
    st.refresh_note_preview(Some("hello\n".to_string()));
    assert!(!st.preview_stale());
    assert_eq!(st.preview_text(), "hello\n");
}

#[test]
fn malformed_walk_yields_no_session() {
    let raw = vec![dir("/v", "v", 1, None)];
    assert!(AppState::new("/v".to_string(), "v", Theme::default(), None, &raw).is_none());
}
