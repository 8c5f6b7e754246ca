//! The session model: folder list, expansion set, lazy per-folder note
//! cache, selection, focus, status line and preview, with the key-driven
//! state machine over them.
//!
//! The model performs no I/O of its own. Where the session needs the
//! filesystem or the configuration, a step hands back a request
//! (`KeyStep::NeedNotes`, `KeyStep::NeedEditor`) without changing the model;
//! the caller loads what was asked for, installs it, and repeats the step,
//! which then proceeds from the cache.

use vstd::prelude::*;
use vstd::string::StringExecFns;

use crate::entries::DirRecord;
use crate::entries::FolderEntry;
use crate::entries::NoteEntry;
use crate::entries::build_folder_entries;
use crate::entries::check_walk;
use crate::entries::folders_wf;
use crate::entries::initialize_expanded_folders;
use crate::entries::str_in;
use crate::entries::strs_unique;
use crate::entries::vec_contains_str;
use crate::entries::walk_wf;
use crate::text::clamp_spec;
use crate::text::clamp_move;
use crate::text::str_eq;
use crate::theme::Theme;

verus! {

/// The pane that receives navigation input.
#[derive(Clone, Copy, Debug, PartialEq, Eq, Structural)]
pub enum Focus {
    Folders,
    Notes,
    Viewer,
}

/// The focus after cycling forward.
pub open spec fn focus_next(f: Focus) -> Focus {
    match f {
        Focus::Folders => Focus::Notes,
        Focus::Notes => Focus::Viewer,
        Focus::Viewer => Focus::Folders,
    }
}

/// The focus after cycling backward.
pub open spec fn focus_prev(f: Focus) -> Focus {
    match f {
        Focus::Folders => Focus::Viewer,
        Focus::Notes => Focus::Folders,
        Focus::Viewer => Focus::Notes,
    }
}

impl Focus {
    /// Cycles focus forward: folders, notes, viewer, folders.
    pub fn next(self) -> (r: Self)
        ensures
            r == focus_next(self),
    {
        match self {
            Focus::Folders => Focus::Notes,
            Focus::Notes => Focus::Viewer,
            Focus::Viewer => Focus::Folders,
        }
    }

    /// Cycles focus backward.
    pub fn prev(self) -> (r: Self)
        ensures
            r == focus_prev(self),
    {
        match self {
            Focus::Folders => Focus::Viewer,
            Focus::Notes => Focus::Folders,
            Focus::Viewer => Focus::Notes,
        }
    }
}

/// One key, as the session model reads it.
#[derive(Clone, Copy, Debug, PartialEq, Eq)]
pub enum KeyCode {
    Char(char),
    Up,
    Down,
    Left,
    Right,
    Enter,
    Tab,
    BackTab,
    Esc,
    Other,
}

/// One keyboard event: its key, and whether it is a press (anything else is
/// ignored).
#[derive(Clone, Copy, Debug)]
pub struct KeyInput {
    pub code: KeyCode,
    pub press: bool,
}

/// What a session step asks of its caller.
#[derive(Debug)]
pub enum AppAction {
    /// Keep the session going.
    Continue,
    /// End the session.
    Quit,
    /// Run the editor on the note, then report back.
    Open { editor: String, note: String },
}

/// The outcome of handling one key: either done, or a request the caller
/// must satisfy before handing the same key in again.
#[derive(Debug)]
pub enum KeyStep {
    /// The key was handled; the model is up to date.
    Done(AppAction),
    /// The named folder's notes must be installed first; the model is
    /// unchanged.
    NeedNotes(String),
    /// An editor command must be resolved first; the model is unchanged.
    NeedEditor,
}

/// One folder's cached notes.
pub struct FolderNotes {
    pub folder: String,
    pub notes: Vec<NoteEntry>,
}

/// The state of one interactive browser session.
pub struct AppState {
    pub vault_path: String,
    pub theme: Theme,
    pub editor_command: Option<String>,
    pub folders: Vec<FolderEntry>,
    pub expanded: Vec<String>,
    pub selected_folder: String,
    pub notes_cache: Vec<FolderNotes>,
    pub selected_note: Option<usize>,
    pub focus: Focus,
    pub note_preview: String,
    pub base_status: String,
    pub status: String,
    pub preview_stale: bool,
}

// ---------------------------------------------------------------------------
// The mathematical model
// ---------------------------------------------------------------------------

impl AppState {
    /// Whether the path `p` is in the expansion set.
    pub open spec fn expanded_has(self, p: Seq<char>) -> bool {
        str_in(self.expanded@, p)
    }

    /// Whether the cache holds an entry for folder `p`.
    pub open spec fn cache_has(self, p: Seq<char>) -> bool {
        exists|i: int|
            0 <= i < self.notes_cache@.len() && (#[trigger] self.notes_cache@[i]).folder@ == p
    }

    /// The index of folder `p`'s cache entry (meaningful when cached).
    pub open spec fn cache_idx(self, p: Seq<char>) -> int {
        choose|i: int|
            0 <= i < self.notes_cache@.len() && (#[trigger] self.notes_cache@[i]).folder@ == p
    }

    /// The cached notes of folder `p` (meaningful when cached).
    pub open spec fn cache_at(self, p: Seq<char>) -> Seq<NoteEntry> {
        self.notes_cache@[self.cache_idx(p)].notes@
    }

    /// The cache as a map from folder path to note sequence.
    pub open spec fn cache_map(self) -> Map<Seq<char>, Seq<NoteEntry>> {
        Map::new(|p: Seq<char>| self.cache_has(p), |p: Seq<char>| self.cache_at(p))
    }

    /// The notes of the selected folder: its cache entry, or empty while
    /// none is installed.
    pub open spec fn sel_notes(self) -> Seq<NoteEntry> {
        if self.cache_has(self.selected_folder@) {
            self.cache_at(self.selected_folder@)
        } else {
            Seq::empty()
        }
    }

    /// No folder cached twice.
    pub open spec fn cache_unique(self) -> bool {
        forall|i: int, j: int|
            #![trigger self.notes_cache@[i], self.notes_cache@[j]]
            0 <= i < j < self.notes_cache@.len() ==> self.notes_cache@[i].folder@
                != self.notes_cache@[j].folder@
    }

    /// The invariants every session state keeps: a well-formed folder list
    /// rooted at the vault path, a duplicate-free expansion set and cache,
    /// a selected folder that is present in the list, and a selected note
    /// index that stays inside the selected folder's cached notes.
    pub open spec fn wf(self) -> bool {
        &&& folders_wf(self.folders@)
        &&& self.folders@[0].path@ == self.vault_path@
        &&& strs_unique(self.expanded@)
        &&& self.cache_unique()
        &&& exists|i: int|
            0 <= i < self.folders@.len() && (#[trigger] self.folders@[i]).path@
                == self.selected_folder@
        &&& match self.selected_note {
            Some(k) => self.cache_has(self.selected_folder@) && (k as int) < self.sel_notes().len(),
            None => true,
        }
    }

    /// Whether every ancestor of folder `i` is expanded (the root, having no
    /// parent, always passes).
    pub open spec fn anc_visible(self, i: int) -> bool
        decreases i,
    {
        if !(0 <= i < self.folders@.len()) {
            true
        } else {
            match self.folders@[i].parent {
                None => true,
                Some(p) => self.expanded_has(p@) && {
                    if exists|j: int|
                        0 <= j < i && (#[trigger] self.folders@[j]).path@ == p@ {
                        self.anc_visible(
                            choose|j: int|
                                0 <= j < i && (#[trigger] self.folders@[j]).path@ == p@,
                        )
                    } else {
                        true
                    }
                },
            }
        }
    }

    /// Whether folder `i` shows in the folder pane: the root itself is the
    /// pane's anchor and never listed; every other folder shows when its
    /// whole ancestor chain is expanded.
    pub open spec fn pane_visible(self, i: int) -> bool {
        0 <= i < self.folders@.len() && self.folders@[i].parent is Some && self.anc_visible(i)
    }

    /// The visible folders among the first `n`, as indices in construction
    /// order.
    pub open spec fn visible_prefix(self, n: int) -> Seq<int>
        decreases n,
    {
        if n <= 0 {
            Seq::empty()
        } else {
            let r = self.visible_prefix(n - 1);
            if self.pane_visible(n - 1) {
                r.push(n - 1)
            } else {
                r
            }
        }
    }

    /// The visible folder list, as indices in construction order.
    pub open spec fn visible_idxs(self) -> Seq<int> {
        self.visible_prefix(self.folders@.len() as int)
    }

    /// The position of the selected folder in the visible list, when it is
    /// visible.
    pub open spec fn vis_pos(self) -> Option<int> {
        if exists|k: int|
            0 <= k < self.visible_idxs().len() && (#[trigger] self.folders@[self.visible_idxs()[k]]).path@
                == self.selected_folder@ {
            Some(
                choose|k: int|
                    0 <= k < self.visible_idxs().len() && (#[trigger] self.folders@[self.visible_idxs()[k]]).path@
                        == self.selected_folder@,
            )
        } else {
            None
        }
    }

    /// The folder a selection move lands on: the current position shifted by
    /// `delta` and clamped to the visible list; the first visible folder
    /// when the selection is not itself visible. Meaningful only when the
    /// visible list is not empty.
    pub open spec fn move_target_idx(self, delta: int) -> int {
        let vis = self.visible_idxs();
        match self.vis_pos() {
            Some(k) => vis[clamp_spec(k, delta, vis.len() as int)],
            None => vis[0],
        }
    }

    /// The path of the selected note, when one is selected.
    pub open spec fn spec_selected_note_path(self) -> Option<Seq<char>> {
        match self.selected_note {
            Some(k) => if (k as int) < self.sel_notes().len() {
                Some(self.sel_notes()[k as int].path@)
            } else {
                None
            },
            None => None,
        }
    }
}

// ---------------------------------------------------------------------------
// Frame predicates: what a step leaves untouched
// ---------------------------------------------------------------------------

/// The fields no key ever changes.
pub open spec fn same_session(pre: AppState, post: AppState) -> bool {
    &&& post.vault_path == pre.vault_path
    &&& post.theme == pre.theme
    &&& post.folders == pre.folders
    &&& post.base_status == pre.base_status
}

/// Everything but the status line unchanged.
pub open spec fn status_only(pre: AppState, post: AppState, msg: Seq<char>) -> bool {
    &&& same_session(pre, post)
    &&& post.status@ == msg
    &&& post.editor_command == pre.editor_command
    &&& post.expanded == pre.expanded
    &&& post.selected_folder == pre.selected_folder
    &&& post.notes_cache == pre.notes_cache
    &&& post.selected_note == pre.selected_note
    &&& post.focus == pre.focus
    &&& post.note_preview == pre.note_preview
    &&& post.preview_stale == pre.preview_stale
}

/// Everything but the focus unchanged.
pub open spec fn focus_only(pre: AppState, post: AppState, f: Focus) -> bool {
    &&& same_session(pre, post)
    &&& post.focus == f
    &&& post.editor_command == pre.editor_command
    &&& post.expanded == pre.expanded
    &&& post.selected_folder == pre.selected_folder
    &&& post.notes_cache == pre.notes_cache
    &&& post.selected_note == pre.selected_note
    &&& post.status == pre.status
    &&& post.note_preview == pre.note_preview
    &&& post.preview_stale == pre.preview_stale
}

/// Everything but the expansion set unchanged.
pub open spec fn expansion_only(pre: AppState, post: AppState) -> bool {
    &&& same_session(pre, post)
    &&& strs_unique(post.expanded@)
    &&& post.editor_command == pre.editor_command
    &&& post.selected_folder == pre.selected_folder
    &&& post.notes_cache == pre.notes_cache
    &&& post.selected_note == pre.selected_note
    &&& post.focus == pre.focus
    &&& post.status == pre.status
    &&& post.note_preview == pre.note_preview
    &&& post.preview_stale == pre.preview_stale
}

/// The selected folder has been expanded (idempotent).
pub open spec fn expand_rel(pre: AppState, post: AppState) -> bool {
    &&& expansion_only(pre, post)
    &&& forall|q: Seq<char>|
        #[trigger] post.expanded_has(q) <==> (pre.expanded_has(q) || q == pre.selected_folder@)
}

/// The state after selecting the folder whose path is `p`, whose notes are
/// already cached: the first note selected when there is one, and the
/// preview left to be re-read.
pub open spec fn selected_to(pre: AppState, post: AppState, p: Seq<char>) -> bool {
    &&& same_session(pre, post)
    &&& post.editor_command == pre.editor_command
    &&& post.expanded == pre.expanded
    &&& post.notes_cache == pre.notes_cache
    &&& post.focus == pre.focus
    &&& post.status == pre.status
    &&& post.note_preview == pre.note_preview
    &&& post.selected_folder@ == p
    &&& post.selected_note == (if pre.cache_at(p).len() > 0 {
        Some(0usize)
    } else {
        None::<usize>
    })
    &&& post.preview_stale == true
}

/// How a folder-selection move by `delta` relates a state to its outcome:
/// empty visible list and no-op moves leave everything unchanged; a move to
/// an uncached folder asks for its notes first; otherwise the target is
/// selected.
pub open spec fn folder_move_rel(pre: AppState, delta: int, post: AppState, r: KeyStep) -> bool {
    let vis = pre.visible_idxs();
    if vis.len() == 0 {
        post == pre && r == KeyStep::Done(AppAction::Continue)
    } else {
        let t = pre.move_target_idx(delta);
        let tp = pre.folders@[t].path@;
        if tp == pre.selected_folder@ {
            post == pre && r == KeyStep::Done(AppAction::Continue)
        } else if !pre.cache_has(tp) {
            post == pre && (r matches KeyStep::NeedNotes(f) && f@ == tp)
        } else {
            selected_to(pre, post, tp) && r == KeyStep::Done(AppAction::Continue)
        }
    }
}

/// How a note-selection move by `delta` relates a state to its outcome: an
/// empty note list clears selection and preview; otherwise the index moves
/// by `delta`, clamped, and the preview is left to be re-read.
pub open spec fn note_move_rel(pre: AppState, post: AppState, delta: int) -> bool {
    &&& same_session(pre, post)
    &&& post.editor_command == pre.editor_command
    &&& post.expanded == pre.expanded
    &&& post.selected_folder == pre.selected_folder
    &&& post.notes_cache == pre.notes_cache
    &&& post.focus == pre.focus
    &&& post.status == pre.status
    &&& if pre.sel_notes().len() == 0 {
        &&& post.selected_note is None
        &&& post.note_preview@ == Seq::<char>::empty()
        &&& post.preview_stale == false
    } else {
        let cur = match pre.selected_note {
            Some(k) => k as int,
            None => 0,
        };
        &&& post.selected_note == Some(
            clamp_spec(cur, delta, pre.sel_notes().len() as int) as usize,
        )
        &&& post.note_preview == pre.note_preview
        &&& post.preview_stale == true
    }
}

/// How collapsing relates a state to its outcome: an expanded selection is
/// collapsed; an already-collapsed one moves selection to its parent (asking
/// for the parent's notes when uncached); the root, having no parent, stays
/// put.
pub open spec fn collapse_rel(pre: AppState, post: AppState, r: KeyStep) -> bool {
    if pre.expanded_has(pre.selected_folder@) {
        &&& expansion_only(pre, post)
        &&& forall|q: Seq<char>|
            #[trigger] post.expanded_has(q) <==> (pre.expanded_has(q) && q
                != pre.selected_folder@)
        &&& r == KeyStep::Done(AppAction::Continue)
    } else {
        let s = choose|i: int|
            0 <= i < pre.folders@.len() && (#[trigger] pre.folders@[i]).path@
                == pre.selected_folder@;
        match pre.folders@[s].parent {
            None => post == pre && r == KeyStep::Done(AppAction::Continue),
            Some(p) => if !pre.cache_has(p@) {
                post == pre && (r matches KeyStep::NeedNotes(f) && f@ == p@)
            } else {
                selected_to(pre, post, p@) && r == KeyStep::Done(AppAction::Continue)
            },
        }
    }
}

/// Enter on the folder pane: the selected folder expands and focus moves to
/// the note pane.
pub open spec fn enter_folders_rel(pre: AppState, post: AppState) -> bool {
    &&& same_session(pre, post)
    &&& strs_unique(post.expanded@)
    &&& forall|q: Seq<char>|
        #[trigger] post.expanded_has(q) <==> (pre.expanded_has(q) || q == pre.selected_folder@)
    &&& post.focus == Focus::Notes
    &&& post.editor_command == pre.editor_command
    &&& post.selected_folder == pre.selected_folder
    &&& post.notes_cache == pre.notes_cache
    &&& post.selected_note == pre.selected_note
    &&& post.status == pre.status
    &&& post.note_preview == pre.note_preview
    &&& post.preview_stale == pre.preview_stale
}

/// Escape: focus returns to the folder pane and the status line reverts to
/// its default.
pub open spec fn esc_rel(pre: AppState, post: AppState) -> bool {
    &&& same_session(pre, post)
    &&& post.focus == Focus::Folders
    &&& post.status == pre.base_status
    &&& post.editor_command == pre.editor_command
    &&& post.expanded == pre.expanded
    &&& post.selected_folder == pre.selected_folder
    &&& post.notes_cache == pre.notes_cache
    &&& post.selected_note == pre.selected_note
    &&& post.note_preview == pre.note_preview
    &&& post.preview_stale == pre.preview_stale
}

/// How an open request relates a state to its outcome: no selected note sets
/// an advisory status; a missing editor command is asked for; otherwise the
/// launch action carries the cached editor and the note's path.
pub open spec fn open_rel(pre: AppState, post: AppState, r: KeyStep) -> bool {
    match pre.spec_selected_note_path() {
        None => status_only(pre, post, "Select a note to open"@) && r == KeyStep::Done(
            AppAction::Continue,
        ),
        Some(np) => match pre.editor_command {
            Some(ed) => post == pre && (r matches KeyStep::Done(a) && (a
                matches AppAction::Open { editor, note } && editor == ed && note@ == np)),
            None => post == pre && r == KeyStep::NeedEditor,
        },
    }
}

/// How one key event relates a session state to its successor and the step
/// handed back. Only presses act; the quit key ends the session from any
/// state; tab and shift-tab cycle focus; arrows move the focused selection
/// or fold folders; enter expands and focuses notes, or opens; dedicated
/// open keys open from anywhere; the unimplemented actions and search only
/// report so; escape returns focus to the folder pane and restores the
/// default status.
pub open spec fn key_rel(pre: AppState, key: KeyInput, post: AppState, r: KeyStep) -> bool {
    if !key.press {
        post == pre && r == KeyStep::Done(AppAction::Continue)
    } else {
        match key.code {
            KeyCode::Char(c) => if c == 'q' {
                post == pre && r == KeyStep::Done(AppAction::Quit)
            } else if c == 'e' || c == 'o' {
                open_rel(pre, post, r)
            } else if c == 'n' || c == 'd' {
                status_only(pre, post, "Action not implemented yet"@) && r == KeyStep::Done(
                    AppAction::Continue,
                )
            } else if c == '/' {
                status_only(pre, post, "Search is not implemented yet"@) && r == KeyStep::Done(
                    AppAction::Continue,
                )
            } else {
                post == pre && r == KeyStep::Done(AppAction::Continue)
            },
            KeyCode::Tab => focus_only(pre, post, focus_next(pre.focus)) && r == KeyStep::Done(
                AppAction::Continue,
            ),
            KeyCode::BackTab => focus_only(pre, post, focus_prev(pre.focus)) && r == KeyStep::Done(
                AppAction::Continue,
            ),
            KeyCode::Up => match pre.focus {
                Focus::Folders => folder_move_rel(pre, -1, post, r),
                Focus::Notes => note_move_rel(pre, post, -1) && r == KeyStep::Done(
                    AppAction::Continue,
                ),
                Focus::Viewer => post == pre && r == KeyStep::Done(AppAction::Continue),
            },
            KeyCode::Down => match pre.focus {
                Focus::Folders => folder_move_rel(pre, 1, post, r),
                Focus::Notes => note_move_rel(pre, post, 1) && r == KeyStep::Done(
                    AppAction::Continue,
                ),
                Focus::Viewer => post == pre && r == KeyStep::Done(AppAction::Continue),
            },
            KeyCode::Left => if pre.focus == Focus::Folders {
                collapse_rel(pre, post, r)
            } else {
                post == pre && r == KeyStep::Done(AppAction::Continue)
            },
            KeyCode::Right => if pre.focus == Focus::Folders {
                expand_rel(pre, post) && r == KeyStep::Done(AppAction::Continue)
            } else {
                post == pre && r == KeyStep::Done(AppAction::Continue)
            },
            KeyCode::Enter => match pre.focus {
                Focus::Folders => enter_folders_rel(pre, post) && r == KeyStep::Done(
                    AppAction::Continue,
                ),
                Focus::Notes | Focus::Viewer => open_rel(pre, post, r),
            },
            KeyCode::Esc => esc_rel(pre, post) && r == KeyStep::Done(AppAction::Continue),
            KeyCode::Other => post == pre && r == KeyStep::Done(AppAction::Continue),
        }
    }
}

// ---------------------------------------------------------------------------
// Expansion-set operations
// ---------------------------------------------------------------------------

/// Adds `s` to a duplicate-free string set.
fn set_insert(v: &mut Vec<String>, s: &str)
    requires
        strs_unique(old(v)@),
    ensures
        strs_unique(final(v)@),
        forall|q: Seq<char>| #[trigger] str_in(final(v)@, q) <==> (str_in(old(v)@, q) || q == s@),
{
    let ghost pre = v@;
    if !vec_contains_str(v, s) {
        v.push(s.to_owned());
        proof {
            assert forall|q: Seq<char>| #[trigger] str_in(v@, q) implies (str_in(pre, q) || q
                == s@) by {
                let i = choose|i: int| 0 <= i < v@.len() && (#[trigger] v@[i])@ == q;
                if i < pre.len() {
                    assert(pre[i]@ == q);
                }
            }
            assert forall|q: Seq<char>| (str_in(pre, q) || q == s@) implies #[trigger] str_in(
                v@,
                q,
            ) by {
                if str_in(pre, q) {
                    let i = choose|i: int| 0 <= i < pre.len() && (#[trigger] pre[i])@ == q;
                    assert(v@[i]@ == q);
                } else {
                    assert(v@[v@.len() - 1]@ == q);
                }
            }
            assert forall|i: int, j: int|
                #![trigger v@[i], v@[j]]
                0 <= i < j < v@.len() implies v@[i]@ != v@[j]@ by {
                if j == v@.len() - 1 {
                    assert(!str_in(pre, s@));
                    assert(pre[i]@ != v@[j]@);
                }
            }
        }
    }
}

/// Removes `s` from a duplicate-free string set; reports whether it was
/// there.
fn set_remove(v: &mut Vec<String>, s: &str) -> (was: bool)
    requires
        strs_unique(old(v)@),
    ensures
        strs_unique(final(v)@),
        was == str_in(old(v)@, s@),
        forall|q: Seq<char>| #[trigger] str_in(final(v)@, q) <==> (str_in(old(v)@, q) && q != s@),
        !was ==> *final(v) == *old(v),
{
    let ghost pre = v@;
    let mut i: usize = 0;
    while i < v.len()
        invariant
            i <= v@.len(),
            v@ == pre,
            pre == old(v)@,
            *v == *old(v),
            strs_unique(pre),
            forall|k: int| 0 <= k < i ==> (#[trigger] pre[k])@ != s@,
        decreases v@.len() - i,
    {
        if str_eq(v[i].as_str(), s) {
            v.remove(i);
            proof {
                assert(v@ =~= pre.remove(i as int));
                assert(pre[i as int]@ == s@);
                assert(str_in(pre, s@));
                assert forall|q: Seq<char>| #[trigger] str_in(v@, q) implies (str_in(pre, q) && q
                    != s@) by {
                    let k = choose|k: int| 0 <= k < v@.len() && (#[trigger] v@[k])@ == q;
                    let k0: int = if k < i {
                        k
                    } else {
                        k + 1
                    };
                    assert(pre[k0]@ == q);
                    if k0 > i {
                        assert(pre[i as int]@ != pre[k0]@);
                    }
                    assert(pre[k0]@ != s@);
                }
                assert forall|q: Seq<char>| (str_in(pre, q) && q != s@) implies #[trigger] str_in(
                    v@,
                    q,
                ) by {
                    let k = choose|k: int| 0 <= k < pre.len() && (#[trigger] pre[k])@ == q;
                    if k < i {
                        assert(v@[k]@ == q);
                    } else {
                        assert(k > i);
                        assert(v@[k - 1]@ == q);
                    }
                }
                assert forall|a: int, b: int|
                    #![trigger v@[a], v@[b]]
                    0 <= a < b < v@.len() implies v@[a]@ != v@[b]@ by {
                    let a0: int = if a < i {
                        a
                    } else {
                        a + 1
                    };
                    let b0: int = if b < i {
                        b
                    } else {
                        b + 1
                    };
                    assert(v@[a]@ == pre[a0]@);
                    assert(v@[b]@ == pre[b0]@);
                }
            }
            return true;
        }
        i = i + 1;
    }
    proof {
        assert(!str_in(pre, s@)) by {
            if str_in(pre, s@) {
                let k = choose|k: int| 0 <= k < pre.len() && (#[trigger] pre[k])@ == s@;
            }
        }
    }
    false
}

// ---------------------------------------------------------------------------
// Cache operations and the loader law
// ---------------------------------------------------------------------------

/// One folder load against a cache: a hit leaves the cache untouched, a miss
/// adds the freshly read entry.
pub open spec fn cache_after_load(
    c: Map<Seq<char>, Seq<NoteEntry>>,
    f: Seq<char>,
    notes: Seq<NoteEntry>,
) -> Map<Seq<char>, Seq<NoteEntry>> {
    if c.dom().contains(f) {
        c
    } else {
        c.insert(f, notes)
    }
}

/// Loading a folder's notes twice without an intervening invalidation leaves
/// the cache exactly as the first load left it, whatever the second read
/// returned: the second load is a no-op.
pub proof fn lemma_loader_idempotent(
    c: Map<Seq<char>, Seq<NoteEntry>>,
    f: Seq<char>,
    n1: Seq<NoteEntry>,
    n2: Seq<NoteEntry>,
)
    ensures
        cache_after_load(cache_after_load(c, f, n1), f, n2) == cache_after_load(c, f, n1),
{
    if !c.dom().contains(f) {
        assert(cache_after_load(c, f, n1).dom().contains(f));
    }
}

/// In a well-formed state, selection indices never leave the lists they
/// index: the selected note index stays inside the selected folder's cached
/// notes, and the selected folder's position, when it is visible, stays
/// inside the visible list.
pub proof fn lemma_selection_in_bounds(s: AppState)
    requires
        s.wf(),
    ensures
        s.selected_note matches Some(k) ==> (k as int) < s.sel_notes().len(),
        s.vis_pos() matches Some(p) ==> 0 <= p < s.visible_idxs().len(),
{
}

impl AppState {
    /// The cache slot of folder `p`, when the folder is cached.
    fn cache_find(&self, p: &str) -> (r: Option<usize>)
        ensures
            match r {
                Some(i) => i < self.notes_cache@.len() && self.notes_cache@[i as int].folder@
                    == p@,
                None => !self.cache_has(p@),
            },
    {
        let mut i: usize = 0;
        while i < self.notes_cache.len()
            invariant
                i <= self.notes_cache@.len(),
                forall|k: int|
                    0 <= k < i ==> (#[trigger] self.notes_cache@[k]).folder@ != p@,
            decreases self.notes_cache@.len() - i,
        {
            if str_eq(self.notes_cache[i].folder.as_str(), p) {
                return Some(i);
            }
            i = i + 1;
        }
        None
    }

    /// Whether the folder's notes are installed in the cache.
    pub fn notes_loaded(&self, folder: &str) -> (r: bool)
        ensures
            r == self.cache_has(folder@),
    {
        match self.cache_find(folder) {
            Some(_) => true,
            None => false,
        }
    }

    /// Installs one folder's notes: a no-op when the folder is already
    /// cached, so that a load is observed at most once per cache lifetime.
    pub fn install_notes(&mut self, folder: String, notes: Vec<NoteEntry>)
        requires
            old(self).wf(),
        ensures
            final(self).wf(),
            final(self).cache_map() == cache_after_load(
                old(self).cache_map(),
                folder@,
                notes@,
            ),
            final(self).cache_has(folder@),
            final(self).vault_path == old(self).vault_path,
            final(self).theme == old(self).theme,
            final(self).editor_command == old(self).editor_command,
            final(self).folders == old(self).folders,
            final(self).expanded == old(self).expanded,
            final(self).selected_folder == old(self).selected_folder,
            final(self).selected_note == old(self).selected_note,
            final(self).focus == old(self).focus,
            final(self).note_preview == old(self).note_preview,
            final(self).base_status == old(self).base_status,
            final(self).status == old(self).status,
            final(self).preview_stale == old(self).preview_stale,
    {
        let ghost pre = *self;
        match self.cache_find(folder.as_str()) {
            Some(_) => {
                proof {
                    assert(pre.cache_map().dom().contains(folder@));
                    assert(self.cache_map() =~= cache_after_load(
                        pre.cache_map(),
                        folder@,
                        notes@,
                    ));
                }
            },
            None => {
                let ghost notesv = notes@;
                let ghost fpath = folder@;
                proof {
                    assert(!pre.cache_has(fpath));
                }
                self.notes_cache.push(FolderNotes { folder, notes });
                proof {
                    let n = self.notes_cache@.len();
                    assert(self.notes_cache@[n - 1].folder@ == fpath);
                    assert forall|q: Seq<char>| #[trigger] self.cache_has(q) implies (
                    pre.cache_has(q) || q == fpath) by {
                        let i = choose|i: int|
                            0 <= i < self.notes_cache@.len() && (#[trigger] self.notes_cache@[i]).folder@
                                == q;
                        if i < n - 1 {
                            assert(pre.notes_cache@[i].folder@ == q);
                        }
                    }
                    assert forall|q: Seq<char>| (pre.cache_has(q) || q == fpath) implies #[trigger] self.cache_has(
                        q,
                    ) by {
                        if pre.cache_has(q) {
                            let i = choose|i: int|
                                0 <= i < pre.notes_cache@.len() && (#[trigger] pre.notes_cache@[i]).folder@
                                    == q;
                            assert(self.notes_cache@[i].folder@ == q);
                        }
                    }
                    assert forall|a: int, b: int|
                        #![trigger self.notes_cache@[a], self.notes_cache@[b]]
                        0 <= a < b < n implies self.notes_cache@[a].folder@
                        != self.notes_cache@[b].folder@ by {
                        if b == n - 1 {
                            assert(pre.notes_cache@[a].folder@ != fpath);
                        }
                    }
                    assert forall|q: Seq<char>| pre.cache_has(q) implies self.cache_at(q)
                        == pre.cache_at(q) by {
                        assert(q != fpath);
                        assert(self.cache_has(q));
                        let i = pre.cache_idx(q);
                        assert(0 <= i < pre.notes_cache@.len() && pre.notes_cache@[i].folder@
                            == q);
                        let j = self.cache_idx(q);
                        assert(0 <= j < n && self.notes_cache@[j].folder@ == q);
                        assert(self.notes_cache@[n - 1].folder@ == fpath);
                        assert(j < n - 1);
                        assert(self.notes_cache@[i].folder@ == q);
                        assert(j == i);
                    }
                    assert(self.cache_at(fpath) == notesv) by {
                        let j = self.cache_idx(fpath);
                        assert(0 <= j < n && self.notes_cache@[j].folder@ == fpath);
                        assert(j == n - 1);
                    }
                    assert(self.cache_map() =~= pre.cache_map().insert(fpath, notesv));
                    if pre.selected_note is Some {
                        assert(pre.cache_has(pre.selected_folder@));
                        assert(self.sel_notes() == pre.sel_notes());
                    }
                }
            },
        }
    }

    /// Drops the selected folder's cache entry and clears the note
    /// selection, so that the next load re-reads the folder.
    pub fn invalidate_selected_folder(&mut self)
        requires
            old(self).wf(),
        ensures
            final(self).wf(),
            final(self).cache_map() == old(self).cache_map().remove(old(self).selected_folder@),
            final(self).selected_note is None,
            final(self).vault_path == old(self).vault_path,
            final(self).theme == old(self).theme,
            final(self).editor_command == old(self).editor_command,
            final(self).folders == old(self).folders,
            final(self).expanded == old(self).expanded,
            final(self).selected_folder == old(self).selected_folder,
            final(self).focus == old(self).focus,
            final(self).note_preview == old(self).note_preview,
            final(self).base_status == old(self).base_status,
            final(self).status == old(self).status,
            final(self).preview_stale == old(self).preview_stale,
    {
        let ghost pre = *self;
        let found = self.cache_find(self.selected_folder.as_str());
        match found {
            Some(i) => {
                self.notes_cache.remove(i);
                self.selected_note = None;
                proof {
                    let sel = pre.selected_folder@;
                    assert(self.notes_cache@ =~= pre.notes_cache@.remove(i as int));
                    assert forall|q: Seq<char>| #[trigger] self.cache_has(q) implies (
                    pre.cache_has(q) && q != sel) by {
                        let k = choose|k: int|
                            0 <= k < self.notes_cache@.len() && (#[trigger] self.notes_cache@[k]).folder@
                                == q;
                        if k < i {
                            assert(pre.notes_cache@[k].folder@ == q);
                        } else {
                            assert(pre.notes_cache@[k + 1].folder@ == q);
                        }
                    }
                    assert forall|q: Seq<char>| (pre.cache_has(q) && q != sel) implies #[trigger] self.cache_has(
                        q,
                    ) by {
                        let k = choose|k: int|
                            0 <= k < pre.notes_cache@.len() && (#[trigger] pre.notes_cache@[k]).folder@
                                == q;
                        if k < i {
                            assert(self.notes_cache@[k].folder@ == q);
                        } else {
                            assert(k != i);
                            assert(self.notes_cache@[k - 1].folder@ == q);
                        }
                    }
                    assert forall|a: int, b: int|
                        #![trigger self.notes_cache@[a], self.notes_cache@[b]]
                        0 <= a < b < self.notes_cache@.len() implies self.notes_cache@[a].folder@
                        != self.notes_cache@[b].folder@ by {
                        let a0: int = if a < i {
                            a
                        } else {
                            a + 1
                        };
                        let b0: int = if b < i {
                            b
                        } else {
                            b + 1
                        };
                        assert(self.notes_cache@[a].folder@ == pre.notes_cache@[a0].folder@);
                        assert(self.notes_cache@[b].folder@ == pre.notes_cache@[b0].folder@);
                    }
                    assert forall|q: Seq<char>| self.cache_has(q) implies self.cache_at(q)
                        == pre.cache_at(q) by {
                        let k = self.cache_idx(q);
                        assert(0 <= k < self.notes_cache@.len() && self.notes_cache@[k].folder@
                            == q);
                        let k0: int = if k < i {
                            k
                        } else {
                            k + 1
                        };
                        assert(pre.notes_cache@[k0].folder@ == q);
                        assert(pre.cache_idx(q) == k0);
                    }
                    assert(self.cache_map() =~= pre.cache_map().remove(sel));
                }
            },
            None => {
                self.selected_note = None;
                proof {
                    assert(self.cache_map() =~= pre.cache_map().remove(pre.selected_folder@));
                }
            },
        }
    }

    /// The index of the folder whose path is `p`, when the list holds it.
    fn folder_index_of(&self, p: &str) -> (r: Option<usize>)
        ensures
            match r {
                Some(i) => i < self.folders@.len() && self.folders@[i as int].path@ == p@ && forall|
                    j: int,
                |
                    0 <= j < i ==> (#[trigger] self.folders@[j]).path@ != p@,
                None => forall|j: int|
                    0 <= j < self.folders@.len() ==> (#[trigger] self.folders@[j]).path@ != p@,
            },
    {
        let mut i: usize = 0;
        while i < self.folders.len()
            invariant
                i <= self.folders@.len(),
                forall|k: int| 0 <= k < i ==> (#[trigger] self.folders@[k]).path@ != p@,
            decreases self.folders@.len() - i,
        {
            if str_eq(self.folders[i].path.as_str(), p) {
                return Some(i);
            }
            i = i + 1;
        }
        None
    }

    /// Whether every ancestor of folder `i` is expanded.
    fn is_folder_visible(&self, i: usize) -> (r: bool)
        requires
            self.wf(),
            i < self.folders@.len(),
        ensures
            r == self.anc_visible(i as int),
        decreases i,
    {
        let parent: Option<String> = match &self.folders[i].parent {
            Some(p) => Some(p.clone()),
            None => None,
        };
        match parent {
            None => true,
            Some(p) => {
                if !vec_contains_str(&self.expanded, p.as_str()) {
                    return false;
                }
                match self.folder_index_of(p.as_str()) {
                    Some(j) => {
                        if j < i {
                            proof {
                                let j0 = choose|j0: int|
                                    0 <= j0 < i && (#[trigger] self.folders@[j0]).path@ == p@;
                                assert(self.folders@[j as int].path@ == self.folders@[j0].path@);
                                assert(j0 == j);
                            }
                            self.is_folder_visible(j)
                        } else {
                            proof {
                                assert forall|j0: int|
                                    0 <= j0 < i implies (#[trigger] self.folders@[j0]).path@
                                    != p@ by {
                                    if self.folders@[j0].path@ == p@ {
                                        assert(self.folders@[j as int].path@
                                            == self.folders@[j0].path@);
                                    }
                                }
                            }
                            true
                        }
                    },
                    None => true,
                }
            },
        }
    }

    /// The visible folder list, as indices into the folder list, in
    /// construction order.
    pub fn visible_folder_indices(&self) -> (r: Vec<usize>)
        requires
            self.wf(),
        ensures
            r@.len() == self.visible_idxs().len(),
            forall|k: int| 0 <= k < r@.len() ==> (#[trigger] r@[k]) as int == self.visible_idxs()[k],
    {
        let mut out: Vec<usize> = Vec::new();
        let mut i: usize = 0;
        while i < self.folders.len()
            invariant
                self.wf(),
                i <= self.folders@.len(),
                out@.len() == self.visible_prefix(i as int).len(),
                forall|k: int|
                    0 <= k < out@.len() ==> (#[trigger] out@[k]) as int == self.visible_prefix(
                        i as int,
                    )[k],
            decreases self.folders@.len() - i,
        {
            let show = match &self.folders[i].parent {
                Some(_) => self.is_folder_visible(i),
                None => false,
            };
            if show {
                out.push(i);
            }
            i = i + 1;
        }
        out
    }

    /// The position of the selected folder in the visible list, when it is
    /// itself visible.
    pub fn visible_folder_index(&self) -> (r: Option<usize>)
        requires
            self.wf(),
        ensures
            match r {
                Some(k) => self.vis_pos() == Some(k as int),
                None => self.vis_pos() is None,
            },
    {
        proof {
            lemma_visible_prefix_props(*self, self.folders@.len() as int);
        }
        let vis = self.visible_folder_indices();
        let mut k: usize = 0;
        while k < vis.len()
            invariant
                self.wf(),
                k <= vis@.len(),
                vis@.len() == self.visible_idxs().len(),
                forall|a: int|
                    0 <= a < vis@.len() ==> (#[trigger] vis@[a]) as int == self.visible_idxs()[a],
                forall|a: int|
                    0 <= a < self.visible_idxs().len() ==> 0 <= #[trigger] self.visible_idxs()[a]
                        < self.folders@.len(),
                forall|a: int|
                    0 <= a < k ==> (#[trigger] self.folders@[self.visible_idxs()[a]]).path@
                        != self.selected_folder@,
            decreases vis@.len() - k,
        {
            let vi = vis[k];
            if str_eq(self.folders[vi].path.as_str(), self.selected_folder.as_str()) {
                proof {
                    let w = choose|w: int|
                        0 <= w < self.visible_idxs().len()
                            && (#[trigger] self.folders@[self.visible_idxs()[w]]).path@
                            == self.selected_folder@;
                    assert(self.folders@[self.visible_idxs()[w]].path@
                        == self.folders@[self.visible_idxs()[k as int]].path@);
                    assert(self.visible_idxs()[w] == self.visible_idxs()[k as int]);
                    if w < k {
                        assert(false);
                    }
                    if w > k {
                        lemma_visible_prefix_increasing(
                            *self,
                            self.folders@.len() as int,
                            k as int,
                            w,
                        );
                    }
                    assert(w == k);
                }
                return Some(k);
            }
            k = k + 1;
        }
        None
    }
}

/// Every index the visible prefix lists lies below `n` and names a visible
/// folder.
pub proof fn lemma_visible_prefix_props(s: AppState, n: int)
    requires
        0 <= n <= s.folders@.len(),
    ensures
        forall|a: int|
            0 <= a < s.visible_prefix(n).len() ==> 0 <= #[trigger] s.visible_prefix(n)[a] < n
                && s.pane_visible(s.visible_prefix(n)[a]),
    decreases n,
{
    if n > 0 {
        lemma_visible_prefix_props(s, n - 1);
        assert forall|a: int|
            0 <= a < s.visible_prefix(n).len() implies 0 <= #[trigger] s.visible_prefix(n)[a] < n
            && s.pane_visible(s.visible_prefix(n)[a]) by {
            if a < s.visible_prefix(n - 1).len() {
                assert(s.visible_prefix(n)[a] == s.visible_prefix(n - 1)[a]);
            } else {
                assert(s.pane_visible(n - 1));
                assert(s.visible_prefix(n)[a] == n - 1);
            }
        }
    }
}


/// A state that keeps the folder list, cache and selection of a well-formed
/// state, and a duplicate-free expansion set, is well formed itself.
proof fn lemma_wf_like(pre: AppState, post: AppState)
    requires
        pre.wf(),
        post.vault_path == pre.vault_path,
        post.folders == pre.folders,
        strs_unique(post.expanded@),
        post.notes_cache == pre.notes_cache,
        post.selected_folder == pre.selected_folder,
        post.selected_note == pre.selected_note,
    ensures
        post.wf(),
{
    let i = choose|i: int|
        0 <= i < pre.folders@.len() && (#[trigger] pre.folders@[i]).path@
            == pre.selected_folder@;
    assert(post.folders@[i].path@ == post.selected_folder@);
    if pre.selected_note is Some {
        let j = choose|j: int|
            0 <= j < pre.notes_cache@.len() && (#[trigger] pre.notes_cache@[j]).folder@
                == pre.selected_folder@;
        assert(post.notes_cache@[j].folder@ == post.selected_folder@);
        assert(post.cache_has(post.selected_folder@));
        let a = post.cache_idx(post.selected_folder@);
        let b = pre.cache_idx(pre.selected_folder@);
        assert(0 <= a < post.notes_cache@.len() && post.notes_cache@[a].folder@
            == post.selected_folder@);
        assert(0 <= b < pre.notes_cache@.len() && pre.notes_cache@[b].folder@
            == pre.selected_folder@);
        assert(post.notes_cache@[a].folder@ == post.notes_cache@[b].folder@);
        assert(a == b);
        assert(post.sel_notes() == pre.sel_notes());
    }
}

/// Like `lemma_wf_like`, for steps that re-aim the note selection: the new
/// index must lie inside the (unchanged) selected folder's cached notes.
proof fn lemma_wf_reselect(pre: AppState, post: AppState)
    requires
        pre.wf(),
        post.vault_path == pre.vault_path,
        post.folders == pre.folders,
        strs_unique(post.expanded@),
        post.notes_cache == pre.notes_cache,
        post.selected_folder == pre.selected_folder,
        match post.selected_note {
            Some(k) => pre.cache_has(pre.selected_folder@) && (k as int)
                < pre.sel_notes().len(),
            None => true,
        },
    ensures
        post.wf(),
        post.sel_notes() == pre.sel_notes(),
        post.cache_has(post.selected_folder@) == pre.cache_has(pre.selected_folder@),
{
    let i = choose|i: int|
        0 <= i < pre.folders@.len() && (#[trigger] pre.folders@[i]).path@
            == pre.selected_folder@;
    assert(post.folders@[i].path@ == post.selected_folder@);
    if pre.cache_has(pre.selected_folder@) {
        let j = choose|j: int|
            0 <= j < pre.notes_cache@.len() && (#[trigger] pre.notes_cache@[j]).folder@
                == pre.selected_folder@;
        assert(post.notes_cache@[j].folder@ == post.selected_folder@);
        assert(post.cache_has(post.selected_folder@));
        let a = post.cache_idx(post.selected_folder@);
        let b = pre.cache_idx(pre.selected_folder@);
        assert(0 <= a < post.notes_cache@.len() && post.notes_cache@[a].folder@
            == post.selected_folder@);
        assert(0 <= b < pre.notes_cache@.len() && pre.notes_cache@[b].folder@
            == pre.selected_folder@);
        assert(post.notes_cache@[a].folder@ == post.notes_cache@[b].folder@);
        assert(a == b);
        assert(post.sel_notes() == pre.sel_notes());
    } else {
        if post.cache_has(post.selected_folder@) {
            let j = choose|j: int|
                0 <= j < post.notes_cache@.len() && (#[trigger] post.notes_cache@[j]).folder@
                    == post.selected_folder@;
            assert(pre.notes_cache@[j].folder@ == pre.selected_folder@);
        }
        assert(post.sel_notes() =~= pre.sel_notes());
    }
}

impl AppState {
    /// Sets the status line.
    pub fn set_status(&mut self, message: &str)
        ensures
            status_only(*old(self), *final(self), message@),
            old(self).wf() ==> final(self).wf(),
    {
        self.status = message.to_owned();
        proof {
            if old(self).wf() {
                lemma_wf_like(*old(self), *self);
            }
        }
    }

    /// Restores the default status line.
    pub fn reset_status(&mut self)
        ensures
            *final(self) == (AppState { status: old(self).base_status, ..*old(self) }),
            old(self).wf() ==> final(self).wf(),
    {
        self.status = self.base_status.clone();
        proof {
            if old(self).wf() {
                lemma_wf_like(*old(self), *self);
            }
        }
    }

    /// Caches a freshly resolved editor command for the rest of the session.
    pub fn set_editor_command(&mut self, command: String)
        ensures
            *final(self) == (AppState { editor_command: Some(command), ..*old(self) }),
            old(self).wf() ==> final(self).wf(),
    {
        self.editor_command = Some(command);
        proof {
            if old(self).wf() {
                lemma_wf_like(*old(self), *self);
            }
        }
    }

    /// Selects the folder at `path`, whose notes are already cached: the
    /// first note is selected when the folder has any, and the preview is
    /// left to be re-read.
    pub fn select_folder(&mut self, path: String)
        requires
            old(self).wf(),
            old(self).cache_has(path@),
            exists|i: int|
                0 <= i < old(self).folders@.len() && (#[trigger] old(self).folders@[i]).path@
                    == path@,
        ensures
            final(self).wf(),
            selected_to(*old(self), *final(self), path@),
    {
        let ghost pre = *self;
        let has_notes = match self.cache_find(path.as_str()) {
            Some(i) => {
                proof {
                    let j = self.cache_idx(path@);
                    assert(0 <= j < self.notes_cache@.len() && self.notes_cache@[j].folder@
                        == path@);
                    assert(self.notes_cache@[i as int].folder@ == self.notes_cache@[j].folder@);
                    assert(j == i);
                }
                self.notes_cache[i].notes.len() > 0
            },
            None => {
                proof {
                    assert(false);
                }
                false
            },
        };
        self.selected_folder = path;
        self.selected_note = if has_notes {
            Some(0)
        } else {
            None
        };
        self.preview_stale = true;
        proof {
            assert(self.cache_at(pre.selected_folder@) == pre.cache_at(pre.selected_folder@));
        }
    }

    /// Moves the folder selection by `delta` steps through the visible list,
    /// clamping at both ends; selecting an uncached folder first asks for its
    /// notes.
    pub fn move_folder_selection(&mut self, delta: isize) -> (r: KeyStep)
        requires
            old(self).wf(),
        ensures
            final(self).wf(),
            folder_move_rel(*old(self), delta as int, *final(self), r),
    {
        proof {
            lemma_visible_prefix_props(*self, self.folders@.len() as int);
        }
        let vis = self.visible_folder_indices();
        if vis.len() == 0 {
            return KeyStep::Done(AppAction::Continue);
        }
        let cur = self.visible_folder_index();
        let target_k = match cur {
            Some(k) => {
                proof {
                    assert(self.vis_pos() == Some(k as int));
                }
                clamp_move(k, delta, vis.len())
            },
            None => 0,
        };
        let t = vis[target_k];
        proof {
            assert(t as int == self.move_target_idx(delta as int));
            assert(0 <= t < self.folders@.len());
        }
        if str_eq(self.folders[t].path.as_str(), self.selected_folder.as_str()) {
            return KeyStep::Done(AppAction::Continue);
        }
        let tp = self.folders[t].path.clone();
        if !self.notes_loaded(tp.as_str()) {
            return KeyStep::NeedNotes(tp);
        }
        proof {
            assert(self.folders@[t as int].path@ == tp@);
        }
        self.select_folder(tp);
        KeyStep::Done(AppAction::Continue)
    }

    /// Expands the selected folder (idempotent).
    pub fn expand_selected_folder(&mut self)
        requires
            old(self).wf(),
        ensures
            final(self).wf(),
            expand_rel(*old(self), *final(self)),
    {
        let ghost pre = *self;
        let s = self.selected_folder.clone();
        set_insert(&mut self.expanded, s.as_str());
        proof {
            assert(self.cache_at(pre.selected_folder@) == pre.cache_at(pre.selected_folder@));
        }
    }

    /// Collapses the selected folder; when it is already collapsed, moves
    /// the selection to its parent instead (the root stays put).
    pub fn collapse_selected_folder(&mut self) -> (r: KeyStep)
        requires
            old(self).wf(),
        ensures
            final(self).wf(),
            collapse_rel(*old(self), *final(self), r),
    {
        let ghost pre = *self;
        let s = self.selected_folder.clone();
        if set_remove(&mut self.expanded, s.as_str()) {
            proof {
                assert(self.cache_at(pre.selected_folder@) == pre.cache_at(
                    pre.selected_folder@,
                ));
            }
            return KeyStep::Done(AppAction::Continue);
        }
        let idx = match self.folder_index_of(s.as_str()) {
            Some(i) => i,
            None => {
                proof {
                    let w = choose|w: int|
                        0 <= w < self.folders@.len() && (#[trigger] self.folders@[w]).path@
                            == self.selected_folder@;
                    assert(false);
                }
                return KeyStep::Done(AppAction::Continue);
            },
        };
        proof {
            let w = choose|w: int|
                0 <= w < pre.folders@.len() && (#[trigger] pre.folders@[w]).path@
                    == pre.selected_folder@;
            assert(pre.folders@[w].path@ == pre.folders@[idx as int].path@);
            assert(w == idx);
        }
        let parent: Option<String> = match &self.folders[idx].parent {
            Some(p) => Some(p.clone()),
            None => None,
        };
        match parent {
            None => KeyStep::Done(AppAction::Continue),
            Some(p) => {
                if !self.notes_loaded(p.as_str()) {
                    return KeyStep::NeedNotes(p);
                }
                proof {
                    // the parent of a listed folder is itself listed
                    assert(crate::entries::folder_parent_before(pre.folders@, idx as int));
                    let j = choose|j: int|
                        0 <= j < idx && (#[trigger] pre.folders@[j]).path@
                            == crate::entries::folder_parent_path(pre.folders@[idx as int]);
                    assert(pre.folders@[j].path@ == p@);
                }
                self.select_folder(p);
                KeyStep::Done(AppAction::Continue)
            },
        }
    }

    /// Moves the note selection by `delta`, clamping at both ends; an empty
    /// note list clears the selection and the preview.
    pub fn move_note_selection(&mut self, delta: isize)
        requires
            old(self).wf(),
        ensures
            final(self).wf(),
            note_move_rel(*old(self), *final(self), delta as int),
    {
        let n = match self.cache_find(self.selected_folder.as_str()) {
            Some(i) => {
                proof {
                    let j = self.cache_idx(self.selected_folder@);
                    assert(0 <= j < self.notes_cache@.len() && self.notes_cache@[j].folder@
                        == self.selected_folder@);
                    assert(self.notes_cache@[i as int].folder@ == self.notes_cache@[j].folder@);
                    assert(j == i);
                }
                self.notes_cache[i].notes.len()
            },
            None => 0,
        };
        if n == 0 {
            self.selected_note = None;
            self.note_preview = String::new();
            self.preview_stale = false;
        } else {
            let cur = match self.selected_note {
                Some(k) => k,
                None => 0,
            };
            let next = clamp_move(cur, delta, n);
            self.selected_note = Some(next);
            self.preview_stale = true;
        }
    }

    /// The path of the selected note, when one is selected.
    pub fn selected_note_path(&self) -> (r: Option<String>)
        requires
            self.wf(),
        ensures
            r is Some == self.spec_selected_note_path() is Some,
            r matches Some(p) ==> self.spec_selected_note_path() matches Some(np) && p@ == np,
    {
        match self.selected_note {
            Some(k) => match self.cache_find(self.selected_folder.as_str()) {
                Some(i) => {
                    proof {
                        let j = self.cache_idx(self.selected_folder@);
                        assert(0 <= j < self.notes_cache@.len() && self.notes_cache@[j].folder@
                            == self.selected_folder@);
                        assert(self.notes_cache@[i as int].folder@
                            == self.notes_cache@[j].folder@);
                        assert(j == i);
                    }
                    Some(self.notes_cache[i].notes[k].path.clone())
                },
                None => {
                    proof {
                        assert(false);
                    }
                    None
                },
            },
            None => None,
        }
    }

    /// Prepares an open-note action: no selected note sets an advisory
    /// status, a missing editor command is asked for, otherwise the action
    /// carries the editor and the note's path.
    pub fn prepare_open_action(&mut self) -> (r: KeyStep)
        requires
            old(self).wf(),
        ensures
            final(self).wf(),
            open_rel(*old(self), *final(self), r),
    {
        let path = self.selected_note_path();
        match path {
            None => {
                self.set_status("Select a note to open");
                KeyStep::Done(AppAction::Continue)
            },
            Some(np) => match &self.editor_command {
                Some(ed) => KeyStep::Done(AppAction::Open { editor: ed.clone(), note: np }),
                None => KeyStep::NeedEditor,
            },
        }
    }

    /// Feeds one key event to the session: the model steps as `key_rel`
    /// describes, and stays well formed.
    pub fn handle_key(&mut self, key: KeyInput) -> (r: KeyStep)
        requires
            old(self).wf(),
        ensures
            final(self).wf(),
            key_rel(*old(self), key, *final(self), r),
    {
        if !key.press {
            return KeyStep::Done(AppAction::Continue);
        }
        match key.code {
            KeyCode::Char(c) => {
                if c == 'q' {
                    KeyStep::Done(AppAction::Quit)
                } else if c == 'e' || c == 'o' {
                    self.prepare_open_action()
                } else if c == 'n' || c == 'd' {
                    self.set_status("Action not implemented yet");
                    KeyStep::Done(AppAction::Continue)
                } else if c == '/' {
                    self.set_status("Search is not implemented yet");
                    KeyStep::Done(AppAction::Continue)
                } else {
                    KeyStep::Done(AppAction::Continue)
                }
            },
            KeyCode::Tab => {
                self.focus = self.focus.next();
                proof {
                    lemma_wf_like(*old(self), *self);
                }
                KeyStep::Done(AppAction::Continue)
            },
            KeyCode::BackTab => {
                self.focus = self.focus.prev();
                proof {
                    lemma_wf_like(*old(self), *self);
                }
                KeyStep::Done(AppAction::Continue)
            },
            KeyCode::Up => match self.focus {
                Focus::Folders => self.move_folder_selection(-1),
                Focus::Notes => {
                    self.move_note_selection(-1);
                    KeyStep::Done(AppAction::Continue)
                },
                Focus::Viewer => KeyStep::Done(AppAction::Continue),
            },
            KeyCode::Down => match self.focus {
                Focus::Folders => self.move_folder_selection(1),
                Focus::Notes => {
                    self.move_note_selection(1);
                    KeyStep::Done(AppAction::Continue)
                },
                Focus::Viewer => KeyStep::Done(AppAction::Continue),
            },
            KeyCode::Left => {
                if matches!(self.focus, Focus::Folders) {
                    self.collapse_selected_folder()
                } else {
                    KeyStep::Done(AppAction::Continue)
                }
            },
            KeyCode::Right => {
                if matches!(self.focus, Focus::Folders) {
                    self.expand_selected_folder();
                }
                KeyStep::Done(AppAction::Continue)
            },
            KeyCode::Enter => match self.focus {
                Focus::Folders => {
                    self.expand_selected_folder();
                    let ghost mid = *self;
                    self.focus = Focus::Notes;
                    proof {
                        lemma_wf_like(mid, *self);
                        assert forall|q: Seq<char>| #[trigger] self.expanded_has(q) <==> (old(
                            self,
                        ).expanded_has(q) || q == old(self).selected_folder@) by {
                            assert(self.expanded_has(q) == mid.expanded_has(q));
                        }
                    }
                    KeyStep::Done(AppAction::Continue)
                },
                Focus::Notes | Focus::Viewer => self.prepare_open_action(),
            },
            KeyCode::Esc => {
                self.focus = Focus::Folders;
                proof {
                    lemma_wf_like(*old(self), *self);
                }
                self.reset_status();
                KeyStep::Done(AppAction::Continue)
            },
            KeyCode::Other => KeyStep::Done(AppAction::Continue),
        }
    }
}

/// How reselection after an external edit relates a state to its outcome:
/// the edited note stays selected by path when the reloaded folder still
/// holds it; otherwise the first note is selected, or none when the folder
/// is empty. The preview is left to be re-read.
pub open spec fn reselect_rel(pre: AppState, post: AppState, np: Seq<char>) -> bool {
    &&& same_session(pre, post)
    &&& post.editor_command == pre.editor_command
    &&& post.expanded == pre.expanded
    &&& post.selected_folder == pre.selected_folder
    &&& post.notes_cache == pre.notes_cache
    &&& post.focus == pre.focus
    &&& post.status == pre.status
    &&& post.note_preview == pre.note_preview
    &&& post.preview_stale == true
    &&& {
        let notes = pre.sel_notes();
        if exists|k: int| 0 <= k < notes.len() && (#[trigger] notes[k]).path@ == np {
            post.selected_note matches Some(k) && 0 <= (k as int) < notes.len() && notes[
                k as int
            ].path@ == np && (forall|j: int|
                0 <= j < k ==> (#[trigger] notes[j]).path@ != np)
        } else if notes.len() > 0 {
            post.selected_note == Some(0usize)
        } else {
            post.selected_note is None
        }
    }
}

impl AppState {
    /// After a reload of the selected folder, selects the note at
    /// `note_path` again by path; a note no longer present falls back to the
    /// first note, or to none.
    pub fn reselect_note(&mut self, note_path: &str)
        requires
            old(self).wf(),
        ensures
            final(self).wf(),
            reselect_rel(*old(self), *final(self), note_path@),
    {
        let ghost pre = *self;
        let found = self.cache_find(self.selected_folder.as_str());
        let n: usize = match found {
            Some(i) => {
                proof {
                    let j = self.cache_idx(self.selected_folder@);
                    assert(0 <= j < self.notes_cache@.len() && self.notes_cache@[j].folder@
                        == self.selected_folder@);
                    assert(self.notes_cache@[i as int].folder@ == self.notes_cache@[j].folder@);
                    assert(j == i);
                }
                self.notes_cache[i].notes.len()
            },
            None => 0,
        };
        if n == 0 {
            self.selected_note = None;
            self.preview_stale = true;
            proof {
                lemma_wf_reselect(pre, *self);
            }
            return ;
        }
        let i = match found {
            Some(i) => i,
            None => {
                proof {
                    assert(false);
                }
                0
            },
        };
        let ghost notes = pre.sel_notes();
        proof {
            assert(notes == pre.notes_cache@[i as int].notes@);
        }
        let mut k: usize = 0;
        while k < n
            invariant
                *self == pre,
                pre == *old(self),
                pre.wf(),
                k <= n,
                i < pre.notes_cache@.len(),
                pre.notes_cache@[i as int].folder@ == pre.selected_folder@,
                n == pre.notes_cache@[i as int].notes@.len(),
                notes == pre.sel_notes(),
                notes == pre.notes_cache@[i as int].notes@,
                forall|j: int| 0 <= j < k ==> (#[trigger] notes[j]).path@ != note_path@,
            decreases n - k,
        {
            if str_eq(self.notes_cache[i].notes[k].path.as_str(), note_path) {
                self.selected_note = Some(k);
                self.preview_stale = true;
                proof {
                    lemma_wf_reselect(pre, *self);
                }
                return ;
            }
            k = k + 1;
        }
        self.selected_note = Some(0);
        self.preview_stale = true;
        proof {
            lemma_wf_reselect(pre, *self);
        }
    }

    /// Replaces the preview text: the given content when a note is
    /// selected, a placeholder otherwise.
    pub fn refresh_note_preview(&mut self, text: Option<String>)
        requires
            old(self).wf(),
            text is Some <==> old(self).spec_selected_note_path() is Some,
        ensures
            final(self).wf(),
            match text {
                Some(t) => final(self).note_preview == t,
                None => final(self).note_preview@ == "Select a note to preview"@,
            },
            final(self).preview_stale == false,
            same_session(*old(self), *final(self)),
            final(self).editor_command == old(self).editor_command,
            final(self).expanded == old(self).expanded,
            final(self).selected_folder == old(self).selected_folder,
            final(self).notes_cache == old(self).notes_cache,
            final(self).selected_note == old(self).selected_note,
            final(self).focus == old(self).focus,
            final(self).status == old(self).status,
    {
        let ghost pre = *self;
        match text {
            Some(t) => {
                self.note_preview = t;
            },
            None => {
                self.note_preview = String::from_str("Select a note to preview");
            },
        }
        self.preview_stale = false;
        proof {
            lemma_wf_like(pre, *self);
        }
    }

    /// Whether the preview no longer matches the selection and must be
    /// re-read.
    pub fn preview_stale(&self) -> (r: bool)
        ensures
            r == self.preview_stale,
    {
        self.preview_stale
    }

    /// The path of the selected folder.
    pub fn selected_folder_path(&self) -> (r: String)
        ensures
            r@ == self.selected_folder@,
    {
        self.selected_folder.clone()
    }

    /// The selected note's index into the selected folder's notes.
    pub fn selected_note_index(&self) -> (r: Option<usize>)
        ensures
            r == self.selected_note,
    {
        self.selected_note
    }

    /// The pane that has focus.
    pub fn focus(&self) -> (r: Focus)
        ensures
            r == self.focus,
    {
        self.focus
    }

    /// The current status line.
    pub fn status_text(&self) -> (r: &String)
        ensures
            r == self.status,
    {
        &self.status
    }

    /// The current preview text.
    pub fn preview_text(&self) -> (r: &String)
        ensures
            r == self.note_preview,
    {
        &self.note_preview
    }

    /// The session's palette.
    pub fn theme(&self) -> (r: Theme)
        ensures
            r == self.theme,
    {
        self.theme
    }

    /// The notes of the selected folder, in their cached order.
    pub fn notes_for_selected_folder(&self) -> (r: &[NoteEntry])
        requires
            self.wf(),
        ensures
            r@ == self.sel_notes(),
    {
        match self.cache_find(self.selected_folder.as_str()) {
            Some(i) => {
                proof {
                    let j = self.cache_idx(self.selected_folder@);
                    assert(0 <= j < self.notes_cache@.len() && self.notes_cache@[j].folder@
                        == self.selected_folder@);
                    assert(self.notes_cache@[i as int].folder@ == self.notes_cache@[j].folder@);
                    assert(j == i);
                }
                self.notes_cache[i].notes.as_slice()
            },
            None => {
                let r: &[NoteEntry] = &[];
                proof {
                    assert(r@ =~= self.sel_notes());
                }
                r
            },
        }
    }
}

/// The default status line for a vault with the given display name.
pub open spec fn status_message_spec(vault_name: Seq<char>) -> Seq<char> {
    "Vault: "@ + vault_name
        + " • ↑/↓ navigate • ←/→ fold • Enter open • Tab switch panel • q quit"@
}

/// Builds the default status line for a vault.
pub fn default_status_message(vault_name: &str) -> (r: String)
    ensures
        r@ == status_message_spec(vault_name@),
{
    let mut s = String::new();
    s.append("Vault: ");
    s.append(vault_name);
    s.append(" • ↑/↓ navigate • ←/→ fold • Enter open • Tab switch panel • q quit");
    s
}

impl AppState {
    /// Builds the session state from a walked vault: the folder list, the
    /// starting expansion set (root and depth-one folders), the root
    /// selected, an empty cache, folder focus and the default status line.
    /// A malformed walk yields nothing.
    pub fn new(
        vault_path: String,
        vault_name: &str,
        theme: Theme,
        editor_command: Option<String>,
        raw: &Vec<DirRecord>,
    ) -> (r: Option<AppState>)
        ensures
            r is Some <==> walk_wf(raw@, vault_path@),
            r matches Some(st) ==> {
                &&& st.wf()
                &&& st.folders@.len() == raw@.len()
                &&& forall|i: int|
                    0 <= i < raw@.len() ==> (#[trigger] st.folders@[i]).path@ == raw@[i].path@
                        && st.folders@[i].depth == raw@[i].depth
                &&& st.folders@[0].name@ == vault_name@
                &&& st.selected_folder@ == vault_path@
                &&& st.selected_note is None
                &&& st.focus == Focus::Folders
                &&& forall|p: Seq<char>| !(#[trigger] st.cache_has(p))
                &&& forall|p: Seq<char>|
                    #[trigger] st.expanded_has(p) <==> (p == vault_path@ || exists|i: int|
                        0 <= i < st.folders@.len() && (#[trigger] st.folders@[i]).depth <= 1
                            && st.folders@[i].path@ == p)
                &&& st.editor_command == editor_command
                &&& st.theme == theme
                &&& st.vault_path == vault_path
                &&& st.base_status@ == status_message_spec(vault_name@)
                &&& st.status == st.base_status
                &&& st.note_preview@ == Seq::<char>::empty()
                &&& st.preview_stale == true
            },
    {
        if !check_walk(raw, vault_path.as_str()) {
            return None;
        }
        let folders = build_folder_entries(vault_name, raw);
        let expanded = initialize_expanded_folders(&folders, vault_path.as_str());
        let selected_folder = folders[0].path.clone();
        let base_status = default_status_message(vault_name);
        let status = base_status.clone();
        let st = AppState {
            vault_path,
            theme,
            editor_command,
            folders,
            expanded,
            selected_folder,
            notes_cache: Vec::new(),
            selected_note: None,
            focus: Focus::Folders,
            note_preview: String::new(),
            base_status,
            status,
            preview_stale: true,
        };
        proof {
            assert(st.folders@[0].path@ == st.vault_path@);
            assert(st.folders@[0].path@ == st.selected_folder@);
        }
        Some(st)
    }
}

/// The visible prefix lists its indices in increasing order.
pub proof fn lemma_visible_prefix_increasing(s: AppState, n: int, a: int, b: int)
    requires
        0 <= n <= s.folders@.len(),
        0 <= a < b < s.visible_prefix(n).len(),
    ensures
        s.visible_prefix(n)[a] < s.visible_prefix(n)[b],
    decreases n,
{
    lemma_visible_prefix_props(s, n);
    if n > 0 {
        if b < s.visible_prefix(n - 1).len() {
            lemma_visible_prefix_increasing(s, n - 1, a, b);
        } else {
            lemma_visible_prefix_props(s, n - 1);
        }
    }
}

} // verus!
