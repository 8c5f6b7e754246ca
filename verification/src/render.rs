//! The rendering contract: pure projections from session state to the text
//! of each pane and the frame's split into panes. Nothing here mutates the
//! model or touches a terminal.

use vstd::prelude::*;
use vstd::string::StrSliceExecFns;
use vstd::string::StringExecFns;

use crate::entries::NoteEntry;
use crate::state::AppState;
use crate::text::repeat_seq;
use crate::text::repeat_str;

verus! {

/// One pane's place on the screen.
#[derive(Clone, Copy, Debug, PartialEq, Eq, Structural)]
pub struct PaneRect {
    pub x: u16,
    pub y: u16,
    pub width: u16,
    pub height: u16,
}

/// The frame split into the three panes and the status line.
#[derive(Clone, Copy, Debug, PartialEq, Eq, Structural)]
pub struct ScreenLayout {
    pub folders: PaneRect,
    pub notes: PaneRect,
    pub preview: PaneRect,
    pub status: PaneRect,
}

/// The frame's split: one status line at the bottom; the body divided into
/// a 35% left column and a 65% preview column; the left column divided 60%
/// folders over 40% notes, remainders falling to the lower and right panes.
pub open spec fn layout_spec(width: int, height: int) -> ScreenLayout {
    let status_h: int = if height >= 1 {
        1
    } else {
        0
    };
    let body_h = height - status_h;
    let left_w = width * 35 / 100;
    let folders_h = body_h * 60 / 100;
    ScreenLayout {
        folders: PaneRect {
            x: 0,
            y: 0,
            width: left_w as u16,
            height: folders_h as u16,
        },
        notes: PaneRect {
            x: 0,
            y: folders_h as u16,
            width: left_w as u16,
            height: (body_h - folders_h) as u16,
        },
        preview: PaneRect {
            x: left_w as u16,
            y: 0,
            width: (width - left_w) as u16,
            height: body_h as u16,
        },
        status: PaneRect {
            x: 0,
            y: body_h as u16,
            width: width as u16,
            height: status_h as u16,
        },
    }
}

/// Splits a frame of the given size into the three panes and status line.
pub fn compute_layout(width: u16, height: u16) -> (r: ScreenLayout)
    ensures
        r == layout_spec(width as int, height as int),
{
    let status_h: u16 = if height >= 1 {
        1
    } else {
        0
    };
    let body_h = height - status_h;
    let left_w = ((width as u32) * 35 / 100) as u16;
    let folders_h = ((body_h as u32) * 60 / 100) as u16;
    ScreenLayout {
        folders: PaneRect { x: 0, y: 0, width: left_w, height: folders_h },
        notes: PaneRect { x: 0, y: folders_h, width: left_w, height: body_h - folders_h },
        preview: PaneRect { x: left_w, y: 0, width: width - left_w, height: body_h },
        status: PaneRect { x: 0, y: body_h, width: width, height: status_h },
    }
}

/// Whether some folder names `p` as its parent.
pub open spec fn spec_has_children(st: AppState, p: Seq<char>) -> bool {
    exists|j: int|
        0 <= j < st.folders@.len() && ((#[trigger] st.folders@[j]).parent matches Some(q) && q@
            == p)
}

/// The disclosure marker of a folder row: a filled triangle for an expanded
/// parent, an open one for a collapsed parent, blank for a leaf.
pub open spec fn symbol_spec(st: AppState, i: int) -> Seq<char> {
    if spec_has_children(st, st.folders@[i].path@) {
        if st.expanded_has(st.folders@[i].path@) {
            "\u{25bc} "@
        } else {
            "\u{25b6} "@
        }
    } else {
        "  "@
    }
}

/// One folder row: indentation by depth, disclosure marker, name.
pub open spec fn folder_row_spec(st: AppState, i: int) -> Seq<char> {
    repeat_seq("  "@, (st.folders@[i].depth - 1) as nat) + symbol_spec(st, i)
        + st.folders@[i].name@
}

impl AppState {
    /// Whether the folder at `p` has child folders.
    pub fn has_folder_children(&self, p: &str) -> (r: bool)
        ensures
            r == spec_has_children(*self, p@),
    {
        let mut j: usize = 0;
        while j < self.folders.len()
            invariant
                j <= self.folders@.len(),
                forall|k: int|
                    0 <= k < j ==> !((#[trigger] self.folders@[k]).parent matches Some(q) && q@
                        == p@),
            decreases self.folders@.len() - j,
        {
            let found = match &self.folders[j].parent {
                Some(q) => crate::text::str_eq(q.as_str(), p),
                None => false,
            };
            if found {
                return true;
            }
            j = j + 1;
        }
        false
    }

    /// Whether the folder at `p` is expanded.
    pub fn is_folder_expanded(&self, p: &str) -> (r: bool)
        ensures
            r == self.expanded_has(p@),
    {
        crate::entries::vec_contains_str(&self.expanded, p)
    }

    /// The text of each visible folder row, in pane order.
    pub fn folder_rows(&self) -> (r: Vec<String>)
        requires
            self.wf(),
        ensures
            r@.len() == self.visible_idxs().len(),
            forall|k: int|
                0 <= k < r@.len() ==> (#[trigger] r@[k])@ == folder_row_spec(
                    *self,
                    self.visible_idxs()[k],
                ),
    {
        proof {
            crate::state::lemma_visible_prefix_props(*self, self.folders@.len() as int);
        }
        let vis = self.visible_folder_indices();
        let mut rows: Vec<String> = Vec::new();
        let mut k: usize = 0;
        while k < vis.len()
            invariant
                self.wf(),
                k <= vis@.len(),
                vis@.len() == self.visible_idxs().len(),
                forall|a: int|
                    0 <= a < vis@.len() ==> (#[trigger] vis@[a]) as int == self.visible_idxs()[a],
                forall|a: int|
                    0 <= a < self.visible_idxs().len() ==> 0 <= #[trigger] self.visible_idxs()[a]
                        < self.folders@.len() && self.pane_visible(self.visible_idxs()[a]),
                rows@.len() == k,
                forall|a: int|
                    0 <= a < k ==> (#[trigger] rows@[a])@ == folder_row_spec(
                        *self,
                        self.visible_idxs()[a],
                    ),
            decreases vis@.len() - k,
        {
            let i = vis[k];
            proof {
                lemma_visible_pane_depth(*self, i as int);
            }
            let mut row = repeat_str("  ", self.folders[i].depth - 1);
            let has_children = self.has_folder_children(self.folders[i].path.as_str());
            let symbol: &str = if has_children {
                if self.is_folder_expanded(self.folders[i].path.as_str()) {
                    "\u{25bc} "
                } else {
                    "\u{25b6} "
                }
            } else {
                "  "
            };
            row.append(symbol);
            row.append(self.folders[i].name.as_str());
            rows.push(row);
            k = k + 1;
        }
        rows
    }
}

/// A folder the pane shows sits below the root, so its depth is at least 1.
proof fn lemma_visible_pane_depth(s: AppState, i: int)
    requires
        s.wf(),
        0 <= i < s.folders@.len(),
        s.pane_visible(i),
    ensures
        s.folders@[i].depth >= 1,
{
    if i == 0 {
        assert(s.folders@[0].parent is None);
    }
}

/// What a note row shows after the name for a modification time `m`.
pub open spec fn modified_part(m: Option<Seq<char>>) -> Seq<char> {
    match m {
        Some(t) => "  "@ + t,
        None => Seq::empty(),
    }
}

/// The note's tags joined for display, each introduced by a hash mark.
pub open spec fn tags_joined(tags: Seq<Seq<char>>) -> Seq<char>
    decreases tags.len(),
{
    if tags.len() == 0 {
        Seq::empty()
    } else if tags.len() == 1 {
        tags[0]
    } else {
        tags_joined(tags.drop_last()) + " #"@ + tags.last()
    }
}

/// What a note row shows after the modification time: nothing without tags,
/// else the tags joined behind a hash mark.
pub open spec fn tags_part(tags: Seq<Seq<char>>) -> Seq<char> {
    if tags.len() == 0 {
        Seq::empty()
    } else {
        "  #"@ + tags_joined(tags)
    }
}

/// One note row: name, then the formatted modification time when there is
/// one, then the tags.
pub open spec fn note_row_spec(note: NoteEntry, m: Option<Seq<char>>) -> Seq<char> {
    note.name@ + modified_part(m) + tags_part(note.tags.deep_view())
}

/// Builds one note row from a note and its formatted modification time.
pub fn note_row_text(note: &NoteEntry, formatted: &Option<String>) -> (r: String)
    ensures
        r@ == note_row_spec(
            *note,
            match formatted {
                Some(t) => Some(t@),
                None => None,
            },
        ),
{
    let ghost tagsv = note.tags.deep_view();
    let mut row = String::new();
    row.append(note.name.as_str());
    match formatted {
        Some(t) => {
            row.append("  ");
            row.append(t.as_str());
        },
        None => {},
    }
    if note.tags.len() > 0 {
        row.append("  #");
        let mut k: usize = 0;
        while k < note.tags.len()
            invariant
                note.tags@.len() > 0,
                tagsv == note.tags.deep_view(),
                tagsv.len() == note.tags@.len(),
                k <= note.tags@.len(),
                k == 0 ==> row@ == note.name@ + modified_part(
                    match formatted {
                        Some(t) => Some(t@),
                        None => None,
                    },
                ) + "  #"@,
                k > 0 ==> row@ == note.name@ + modified_part(
                    match formatted {
                        Some(t) => Some(t@),
                        None => None,
                    },
                ) + "  #"@ + tags_joined(tagsv.subrange(0, k as int)),
            decreases note.tags@.len() - k,
        {
            if k > 0 {
                row.append(" #");
            }
            row.append(note.tags[k].as_str());
            proof {
                assert(tagsv[k as int] == note.tags@[k as int]@);
                if k > 0 {
                    assert(tagsv.subrange(0, k + 1).drop_last() =~= tagsv.subrange(0, k as int));
                    assert(tagsv.subrange(0, k + 1).last() == tagsv[k as int]);
                } else {
                    assert(tagsv.subrange(0, 1).len() == 1);
                    assert(tagsv.subrange(0, 1)[0] == tagsv[0]);
                }
            }
            k = k + 1;
        }
        proof {
            assert(tagsv.subrange(0, tagsv.len() as int) =~= tagsv);
        }
    } else {
        proof {
            assert(tagsv.len() == 0);
            assert(tags_part(tagsv) =~= Seq::<char>::empty());
            assert(row@ =~= row@ + tags_part(tagsv));
        }
    }
    row
}

impl AppState {
    /// The text of each note row of the selected folder; an empty folder
    /// shows a single placeholder row.
    pub fn note_rows(&self) -> (r: Vec<String>)
        requires
            self.wf(),
        ensures
            self.sel_notes().len() == 0 ==> r@.len() == 1 && r@[0]@ == "(no notes)"@,
            self.sel_notes().len() > 0 ==> {
                &&& r@.len() == self.sel_notes().len()
                &&& forall|k: int|
                    0 <= k < r@.len() ==> ((#[trigger] self.sel_notes()[k]).modified is None
                        ==> r@[k]@ == note_row_spec(self.sel_notes()[k], None))
                &&& forall|k: int|
                    0 <= k < r@.len() ==> ((#[trigger] self.sel_notes()[k]).modified is Some
                        ==> exists|m: Seq<char>|
                        r@[k]@ == note_row_spec(self.sel_notes()[k], Some(m)))
            },
    {
        let notes = self.notes_for_selected_folder();
        let mut rows: Vec<String> = Vec::new();
        if notes.len() == 0 {
            rows.push(String::from_str("(no notes)"));
            return rows;
        }
        let mut k: usize = 0;
        while k < notes.len()
            invariant
                notes@ == self.sel_notes(),
                k <= notes@.len(),
                rows@.len() == k,
                forall|a: int|
                    0 <= a < k ==> ((#[trigger] notes@[a]).modified is None ==> rows@[a]@
                        == note_row_spec(notes@[a], None)),
                forall|a: int|
                    0 <= a < k ==> ((#[trigger] notes@[a]).modified is Some ==> exists|m: Seq<char>|
                        rows@[a]@ == note_row_spec(notes@[a], Some(m))),
            decreases notes@.len() - k,
        {
            let formatted = notes[k].formatted_modified();
            let row = note_row_text(&notes[k], &formatted);
            rows.push(row);
            k = k + 1;
        }
        rows
    }
}

} // verus!
